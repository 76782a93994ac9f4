//! Running an operation, one question to the file system at a time.
//!
//! What an operation shows depends on what the file system says, and what is
//! asked next on what it said before. So an operation is run against the
//! answers so far: the run ends in a result, in a failure, or in the next
//! question, to be answered and added to them.
#![verifier::loop_isolation(false)]

use crate::backends::directory::{
    list_directory, list_directory_projection, listing_text, no_directory, pipeline_text,
    DirectoryEntry, EntryView,
};
use crate::backends::grep::{tool_text, GrepMatch, MatchView};
use crate::backends::inspect_file::{FileInspection, InspectionView};
use crate::backends::projection::{
    apply_find_pipeline, asks_for_log, measured, pipeline_files, projected_lines,
    render_find_measure, render_projection, validate_read_only_external, ExternalError, FactsView,
    FileFacts, ReadOnlyExternal, ReadOnlyExternalView,
};
use crate::error::BackendError;
use crate::integrations::hook_result::{
    nothing, result_of_body, result_of_inspection, result_of_lines, result_of_segments, single,
    HookResult, PartView, ResultView,
};
use crate::integrations::post_edit_check::{FindingView, PostEditReport};
use crate::integrations::project_check::{DiagnosticView, ProjectCheckDiagnostic};
use crate::number::read_unsigned;
use crate::shell_parse::filters::allowlisted;
use crate::shell_parse::operation::{
    branch_view, branches_view, condition_view, operation_view, segment_view, segments_view,
    BranchView, ConditionView, FastOperation, FastSegment, MiniBranch, MiniCondition,
    OperationView, SegmentView, TestPathType,
};
use crate::split::joined;
use crate::text::push_item;
use vstd::prelude::*;

verus! {

// Questions and answers.

/// What the file system has at a path.
#[derive(Debug, Clone, Copy, PartialEq, Eq, Structural)]
pub struct PathKind {
    pub is_file: bool,
    pub is_dir: bool,
}

/// A question of an operation to the file system.
#[derive(Debug)]
pub enum Request<'a> {
    /// What an operation that is no list and no script needs.
    Operation(&'a FastOperation),
    /// What a program writes. Only a call that is allowed is asked for.
    External(&'a ReadOnlyExternal),
    /// What is at a path.
    TestPath(&'a str),
}

/// The contents of a question.
#[verifier::ext_equal]
pub ghost enum RequestView {
    Operation(OperationView),
    External(ReadOnlyExternalView),
    TestPath(Seq<char>),
}

impl<'a> Request<'a> {
    /// The contents of a question.
    pub open spec fn contents(self) -> RequestView {
        match self {
            Request::Operation(operation) => RequestView::Operation(operation_view(*operation)),
            Request::External(external) => RequestView::External(external.deep_view()),
            Request::TestPath(path) => RequestView::TestPath(path@),
        }
    }
}

/// An answer.
#[derive(Debug)]
pub enum Answer {
    /// The paths of a search, or the lines of a file.
    Lines(Vec<String>),
    /// The files of a search or of a list of paths.
    Files(Vec<FileFacts>),
    /// The matches in a search of file contents.
    Matches(Vec<GrepMatch>),
    /// The matches with the lines around them, or what a program wrote.
    Text(String),
    /// What is shown of a file.
    Inspection(FileInspection),
    /// What is in a directory.
    Entries { is_dir: bool, entries: Vec<DirectoryEntry> },
    /// What is at a path, if anything.
    Found(Option<PathKind>),
    /// What a prompt refers to, if anything.
    Context(Option<String>),
    /// The checks of the project that failed.
    Diagnostics(Vec<ProjectCheckDiagnostic>),
    /// What is wrong with the edited files, if anything.
    Report(Option<PostEditReport>),
    /// What was to be noted is noted.
    Noted,
    /// The question could not be answered.
    Failed(String),
}

/// The contents of an answer.
#[verifier::ext_equal]
pub ghost enum AnswerView {
    Lines(Seq<Seq<char>>),
    Files(Seq<FactsView>),
    Matches(Seq<MatchView>),
    Text(Seq<char>),
    Inspection(InspectionView),
    Entries { is_dir: bool, entries: Seq<EntryView> },
    Found(Option<PathKind>),
    Context(Option<Seq<char>>),
    Diagnostics(Seq<DiagnosticView>),
    Report(Option<Seq<FindingView>>),
    Noted,
    Failed(Seq<char>),
}

impl DeepView for Answer {
    type V = AnswerView;

    open spec fn deep_view(&self) -> AnswerView {
        match self {
            Answer::Lines(lines) => AnswerView::Lines(lines.deep_view()),
            Answer::Files(files) => AnswerView::Files(files.deep_view()),
            Answer::Matches(matches) => AnswerView::Matches(matches.deep_view()),
            Answer::Text(text) => AnswerView::Text(text@),
            Answer::Inspection(inspection) => AnswerView::Inspection(inspection.deep_view()),
            Answer::Entries { is_dir, entries } => AnswerView::Entries {
                is_dir: *is_dir,
                entries: entries.deep_view(),
            },
            Answer::Found(kind) => AnswerView::Found(*kind),
            Answer::Context(context) => AnswerView::Context(context.deep_view()),
            Answer::Diagnostics(diagnostics) => AnswerView::Diagnostics(diagnostics.deep_view()),
            Answer::Report(report) => AnswerView::Report(report.deep_view()),
            Answer::Noted => AnswerView::Noted,
            Answer::Failed(message) => AnswerView::Failed(message@),
        }
    }
}

/// What is said of an answer to another question.
pub open spec fn mismatch() -> Seq<char> {
    "unexpected answer"@
}

/// What is said of an answer that does not fit its question.
pub open spec fn refused(answer: AnswerView) -> Seq<char> {
    match answer {
        AnswerView::Failed(message) => message,
        _ => mismatch(),
    }
}

fn refuse(answer: &Answer) -> (r: BackendError)
    ensures
        r.deep_view() == refused(answer.deep_view()),
{
    match answer {
        Answer::Failed(message) => BackendError { message: message.clone() },
        _ => BackendError::new("unexpected answer"),
    }
}

// Conditions.

/// How far a condition is decided.
#[verifier::ext_equal]
pub ghost enum ConditionRun {
    Ask(Seq<char>),
    Failed(Seq<char>),
    Done(bool, nat),
}

/// Whether what is at a path passes a test.
pub open spec fn passes(path_type: TestPathType, kind: PathKind) -> bool {
    match path_type {
        TestPathType::Any => true,
        TestPathType::Leaf => kind.is_file,
        TestPathType::Container => kind.is_dir,
    }
}

/// Decides a condition with the answers from `at` on. The second half of a
/// pair is looked at only if the first does not settle it.
pub open spec fn run_condition(
    condition: ConditionView,
    answers: Seq<AnswerView>,
    at: nat,
) -> ConditionRun
    decreases condition,
{
    match condition {
        ConditionView::TestPath { path, path_type } => if at >= answers.len() {
            ConditionRun::Ask(path)
        } else {
            match answers[at as int] {
                AnswerView::Found(Some(kind)) => ConditionRun::Done(
                    passes(path_type, kind),
                    at + 1,
                ),
                AnswerView::Found(None) => ConditionRun::Done(false, at + 1),
                answer => ConditionRun::Failed(refused(answer)),
            }
        },
        ConditionView::Not(inner) => match run_condition(*inner, answers, at) {
            ConditionRun::Done(holds, next) => ConditionRun::Done(!holds, next),
            other => other,
        },
        ConditionView::And(left, right) => match run_condition(*left, answers, at) {
            ConditionRun::Done(true, next) => run_condition(*right, answers, next),
            other => other,
        },
        ConditionView::Or(left, right) => match run_condition(*left, answers, at) {
            ConditionRun::Done(false, next) => run_condition(*right, answers, next),
            other => other,
        },
    }
}

/// How far a condition is decided.
#[derive(Debug)]
pub enum ConditionStep<'a> {
    Ask(&'a str),
    Failed(BackendError),
    Done(bool, usize),
}

impl<'a> ConditionStep<'a> {
    /// The contents of a step.
    pub open spec fn contents(self) -> ConditionRun {
        match self {
            ConditionStep::Ask(path) => ConditionRun::Ask(path@),
            ConditionStep::Failed(error) => ConditionRun::Failed(error.deep_view()),
            ConditionStep::Done(holds, next) => ConditionRun::Done(holds, next as nat),
        }
    }
}

/// Decides a condition with the answers from `at` on.
pub fn evaluate_condition<'a>(
    condition: &'a MiniCondition,
    answers: &[Answer],
    at: usize,
) -> (r: ConditionStep<'a>)
    requires
        at <= answers.len(),
    ensures
        r.contents() == run_condition(condition_view(*condition), answers.deep_view(), at as nat),
        r matches ConditionStep::Done(_, next) ==> at <= next <= answers.len(),
    decreases condition,
{
    match condition {
        MiniCondition::TestPath { path, path_type } => {
            if at >= answers.len() {
                return ConditionStep::Ask(path.as_str());
            }
            assert(answers.deep_view()[at as int] == answers[at as int].deep_view());
            match &answers[at] {
                Answer::Found(Some(kind)) => {
                    let holds = match path_type {
                        TestPathType::Any => true,
                        TestPathType::Leaf => kind.is_file,
                        TestPathType::Container => kind.is_dir,
                    };
                    ConditionStep::Done(holds, at + 1)
                },
                Answer::Found(None) => ConditionStep::Done(false, at + 1),
                answer => ConditionStep::Failed(refuse(answer)),
            }
        },
        MiniCondition::Not(inner) => match evaluate_condition(inner, answers, at) {
            ConditionStep::Done(holds, next) => ConditionStep::Done(!holds, next),
            other => other,
        },
        MiniCondition::And(left, right) => match evaluate_condition(left, answers, at) {
            ConditionStep::Done(true, next) => evaluate_condition(right, answers, next),
            other => other,
        },
        MiniCondition::Or(left, right) => match evaluate_condition(left, answers, at) {
            ConditionStep::Done(false, next) => evaluate_condition(right, answers, next),
            other => other,
        },
    }
}

/// How far the branch of a script is chosen: none, if no condition holds.
#[verifier::ext_equal]
pub ghost enum BranchRun {
    Ask(Seq<char>),
    Failed(Seq<char>),
    Done(Option<int>, nat),
}

/// The first branch from `i` on whose condition holds, or that has none.
pub open spec fn run_branches(
    branches: Seq<BranchView>,
    i: nat,
    answers: Seq<AnswerView>,
    at: nat,
) -> BranchRun
    decreases branches.len() - i,
{
    if i >= branches.len() {
        BranchRun::Done(None, at)
    } else {
        match branches[i as int].condition {
            None => BranchRun::Done(Some(i as int), at),
            Some(condition) => match run_condition(condition, answers, at) {
                ConditionRun::Ask(path) => BranchRun::Ask(path),
                ConditionRun::Failed(message) => BranchRun::Failed(message),
                ConditionRun::Done(true, next) => BranchRun::Done(Some(i as int), next),
                ConditionRun::Done(false, next) => run_branches(branches, i + 1, answers, next),
            },
        }
    }
}

/// How far the branch of a script is chosen.
#[derive(Debug)]
pub enum BranchStep<'a> {
    Ask(&'a str),
    Failed(BackendError),
    Done(Option<usize>, usize),
}

impl<'a> BranchStep<'a> {
    /// The contents of a step.
    pub open spec fn contents(self) -> BranchRun {
        match self {
            BranchStep::Ask(path) => BranchRun::Ask(path@),
            BranchStep::Failed(error) => BranchRun::Failed(error.deep_view()),
            BranchStep::Done(chosen, next) => BranchRun::Done(
                match chosen {
                    Some(i) => Some(i as int),
                    None => None,
                },
                next as nat,
            ),
        }
    }
}

/// Chooses the branch of a script.
pub fn select_branch<'a>(branches: &'a Vec<MiniBranch>, answers: &[Answer], at: usize) -> (r:
    BranchStep<'a>)
    requires
        at <= answers.len(),
    ensures
        r.contents() == run_branches(
            branches_view(branches@),
            0,
            answers.deep_view(),
            at as nat,
        ),
        r matches BranchStep::Done(chosen, next) ==> at <= next <= answers.len() && (
        chosen matches Some(i) ==> i < branches.len()),
{
    let ghost view = branches_view(branches@);
    let ghost a = answers.deep_view();
    let mut next: usize = at;
    let mut i: usize = 0;
    while i < branches.len()
        invariant
            i <= branches.len(),
            at <= next <= answers.len(),
            run_branches(view, i as nat, a, next as nat) == run_branches(view, 0, a, at as nat),
        decreases branches.len() - i,
    {
        assert(view[i as int] == branch_view(branches@[i as int]));
        match &branches[i].condition {
            None => {
                return BranchStep::Done(Some(i), next);
            },
            Some(condition) => match evaluate_condition(condition, answers, next) {
                ConditionStep::Ask(path) => {
                    return BranchStep::Ask(path);
                },
                ConditionStep::Failed(error) => {
                    return BranchStep::Failed(error);
                },
                ConditionStep::Done(true, after) => {
                    return BranchStep::Done(Some(i), after);
                },
                ConditionStep::Done(false, after) => {
                    next = after;
                },
            },
        }
        i += 1;
    }
    BranchStep::Done(None, next)
}

// Operations.

/// The name of an operation.
pub open spec fn kind_of(operation: OperationView) -> Seq<char> {
    match operation {
        OperationView::Find(_) => "find"@,
        OperationView::FindProjection(_) => "find_projection"@,
        OperationView::FindPipeline(_) => "find_pipeline"@,
        OperationView::FindMeasure(_) => "find_measure"@,
        OperationView::DirectProjection { .. } => "direct_projection"@,
        OperationView::Grep(_) => "grep"@,
        OperationView::GrepContext(_) => "grep_context"@,
        OperationView::InspectFile { .. } => "inspect_file"@,
        OperationView::ReadLines { .. } => "read_lines"@,
        OperationView::Slice { .. } => "slice"@,
        OperationView::ListDirectory(_) => "list_directory"@,
        OperationView::ListDirectoryPipeline(_) => "list_directory_pipeline"@,
        OperationView::CommandList(_) => "command_list"@,
        OperationView::MiniScript(_) => "mini_script"@,
    }
}

/// The name of an operation.
pub fn operation_kind(operation: &FastOperation) -> (r: &'static str)
    ensures
        r@ == kind_of(operation_view(*operation)),
{
    match operation {
        FastOperation::Find(_) => "find",
        FastOperation::FindProjection(_) => "find_projection",
        FastOperation::FindPipeline(_) => "find_pipeline",
        FastOperation::FindMeasure(_) => "find_measure",
        FastOperation::DirectProjection { .. } => "direct_projection",
        FastOperation::Grep(_) => "grep",
        FastOperation::GrepContext(_) => "grep_context",
        FastOperation::InspectFile { .. } => "inspect_file",
        FastOperation::ReadLines { .. } => "read_lines",
        FastOperation::Slice { .. } => "slice",
        FastOperation::ListDirectory(_) => "list_directory",
        FastOperation::ListDirectoryPipeline(_) => "list_directory_pipeline",
        FastOperation::CommandList(_) => "command_list",
        FastOperation::MiniScript(_) => "mini_script",
    }
}

/// The result of one operation, or what is wrong.
#[verifier::ext_equal]
pub ghost enum LeafRun {
    Failed(Seq<char>),
    Done(ResultView),
}

/// The matches, one line for each.
pub open spec fn match_texts(matches: Seq<MatchView>) -> Seq<Seq<char>> {
    matches.map_values(|m: MatchView| tool_text(m))
}

/// What an operation that is no list and no script makes of its answer.
pub open spec fn leaf_result(operation: OperationView, answer: AnswerView) -> LeafRun {
    let kind = kind_of(operation);
    match (operation, answer) {
        (OperationView::Find(_), AnswerView::Lines(paths)) => LeafRun::Done(
            result_of_lines(kind, paths),
        ),
        (OperationView::ReadLines { .. }, AnswerView::Lines(lines)) => LeafRun::Done(
            result_of_lines(kind, lines),
        ),
        (OperationView::Slice { .. }, AnswerView::Lines(lines)) => LeafRun::Done(
            result_of_lines(kind, lines),
        ),
        (OperationView::FindProjection(find), AnswerView::Files(files)) => LeafRun::Done(
            result_of_body(kind, joined(projected_lines(files, find.projection), "\n"@)),
        ),
        (OperationView::FindPipeline(find), AnswerView::Files(files)) => LeafRun::Done(
            result_of_body(
                kind,
                joined(projected_lines(pipeline_files(files, find), find.projection), "\n"@),
            ),
        ),
        (OperationView::FindMeasure(find), AnswerView::Files(files)) => LeafRun::Done(
            result_of_body(kind, measured(files, find)),
        ),
        (
            OperationView::DirectProjection { paths: _, projection },
            AnswerView::Files(files),
        ) => LeafRun::Done(
            result_of_body(kind, joined(projected_lines(files, projection), "\n"@)),
        ),
        (OperationView::Grep(_), AnswerView::Matches(matches)) => LeafRun::Done(
            result_of_lines(kind, match_texts(matches)),
        ),
        (OperationView::GrepContext(_), AnswerView::Text(text)) => LeafRun::Done(
            result_of_body(kind, text),
        ),
        (OperationView::InspectFile { .. }, AnswerView::Inspection(inspection)) => LeafRun::Done(
            result_of_inspection(inspection),
        ),
        (OperationView::ListDirectory(list), AnswerView::Entries { is_dir, entries }) => if is_dir {
            LeafRun::Done(result_of_body(kind, listing_text(list, entries)))
        } else {
            LeafRun::Failed(no_directory(list.root))
        },
        (
            OperationView::ListDirectoryPipeline(pipeline),
            AnswerView::Entries { is_dir, entries },
        ) => if is_dir {
            LeafRun::Done(result_of_body(kind, pipeline_text(pipeline, entries)))
        } else {
            LeafRun::Failed(no_directory(pipeline.list.root))
        },
        _ => LeafRun::Failed(refused(answer)),
    }
}

fn render_matches(matches: &Vec<GrepMatch>) -> (r: Vec<String>)
    ensures
        r.deep_view() == match_texts(matches.deep_view()),
{
    let ghost all = match_texts(matches.deep_view());
    let mut lines: Vec<String> = Vec::new();
    let mut i: usize = 0;
    assert(lines.deep_view() =~= all.take(0));
    while i < matches.len()
        invariant
            i <= matches.len(),
            lines.deep_view() == all.take(i as int),
        decreases matches.len() - i,
    {
        assert(matches.deep_view()[i as int] == matches[i as int].deep_view());
        push_item(&mut lines, matches[i].to_tool_text());
        i += 1;
        assert(lines.deep_view() =~= all.take(i as int));
    }
    assert(all.take(i as int) =~= all);
    lines
}

fn of_text(kind: &'static str, text: Result<String, BackendError>) -> (r: Result<
    HookResult,
    BackendError,
>)
    ensures
        match text {
            Ok(text) => r matches Ok(result) && result.deep_view() == result_of_body(kind@, text@),
            Err(error) => r matches Err(failure) && failure.deep_view() == error.deep_view(),
        },
{
    match text {
        Ok(text) => Ok(HookResult::from_body(kind, text.as_str())),
        Err(error) => Err(error),
    }
}

/// What an operation that is no list and no script makes of its answer.
pub fn finish_operation(operation: &FastOperation, answer: &Answer) -> (r: Result<
    HookResult,
    BackendError,
>)
    ensures
        leaf_result(operation_view(*operation), answer.deep_view()) == match r {
            Ok(result) => LeafRun::Done(result.deep_view()),
            Err(error) => LeafRun::Failed(error.deep_view()),
        },
{
    let kind = operation_kind(operation);
    match (operation, answer) {
        (FastOperation::Find(_), Answer::Lines(paths)) => Ok(HookResult::from_lines(kind, paths)),
        (FastOperation::ReadLines { .. }, Answer::Lines(lines)) => Ok(
            HookResult::from_lines(kind, lines),
        ),
        (FastOperation::Slice { .. }, Answer::Lines(lines)) => Ok(
            HookResult::from_lines(kind, lines),
        ),
        (FastOperation::FindProjection(find), Answer::Files(files)) => Ok(
            HookResult::from_body(kind, render_projection(files, &find.projection).as_str()),
        ),
        (FastOperation::FindPipeline(find), Answer::Files(files)) => {
            let files = apply_find_pipeline(files, find);
            Ok(HookResult::from_body(kind, render_projection(&files, &find.projection).as_str()))
        },
        (FastOperation::FindMeasure(find), Answer::Files(files)) => Ok(
            HookResult::from_body(kind, render_find_measure(files, find).as_str()),
        ),
        (FastOperation::DirectProjection { paths: _, projection }, Answer::Files(files)) => Ok(
            HookResult::from_body(kind, render_projection(files, projection).as_str()),
        ),
        (FastOperation::Grep(_), Answer::Matches(matches)) => Ok(
            HookResult::from_lines(kind, &render_matches(matches)),
        ),
        (FastOperation::GrepContext(_), Answer::Text(text)) => Ok(
            HookResult::from_body(kind, text.as_str()),
        ),
        (FastOperation::InspectFile { .. }, Answer::Inspection(inspection)) => Ok(
            HookResult::inspect_file(inspection),
        ),
        (FastOperation::ListDirectory(list), Answer::Entries { is_dir, entries }) => of_text(
            kind,
            list_directory(list, *is_dir, entries),
        ),
        (
            FastOperation::ListDirectoryPipeline(pipeline),
            Answer::Entries { is_dir, entries },
        ) => of_text(kind, list_directory_projection(pipeline, *is_dir, entries)),
        _ => Err(refuse(answer)),
    }
}

// Lists and scripts.

/// How far an operation is run.
#[verifier::ext_equal]
pub ghost enum OperationRun {
    Ask(RequestView),
    Failed(Seq<char>),
    Done(ResultView, nat),
}

/// How far a list of steps is run.
#[verifier::ext_equal]
pub ghost enum StepsRun {
    Ask(RequestView),
    Failed(Seq<char>),
    Done(Seq<ResultView>, nat),
}

/// What is wrong with a program call.
pub open spec fn external_refusal(external: ReadOnlyExternalView) -> ExternalError {
    if external.program != "git"@ {
        ExternalError::Program
    } else if asks_for_log(external.args) {
        if read_unsigned(external.args[3]) is None {
            ExternalError::Count
        } else {
            ExternalError::CountRange
        }
    } else {
        ExternalError::Command
    }
}

/// Runs a program call with the answer at `at`, if it is allowed.
pub open spec fn run_external(
    external: ReadOnlyExternalView,
    answers: Seq<AnswerView>,
    at: nat,
) -> OperationRun {
    if !allowlisted(external) {
        OperationRun::Failed(external_refusal(external).words())
    } else if at >= answers.len() {
        OperationRun::Ask(RequestView::External(external))
    } else {
        match answers[at as int] {
            AnswerView::Text(text) => OperationRun::Done(
                result_of_body("readonly_external"@, text),
                at + 1,
            ),
            answer => OperationRun::Failed(refused(answer)),
        }
    }
}

/// The result of a script whose steps gave the results. A single step stands
/// for the script.
pub open spec fn script_result(results: Seq<ResultView>) -> ResultView {
    if results.len() == 0 {
        single(nothing("mini_script"@))
    } else if results.len() == 1 {
        ResultView {
            head: PartView { kind: "mini_script"@, ..results[0].head },
            segments: results[0].segments,
        }
    } else {
        result_of_segments("mini_script"@, results)
    }
}

/// Runs an operation with the answers from `at` on.
pub open spec fn run_operation(
    operation: OperationView,
    answers: Seq<AnswerView>,
    at: nat,
) -> OperationRun
    decreases operation, 0nat, 0nat,
{
    match operation {
        OperationView::CommandList(segments) => match run_segments(
            segments,
            segments.len(),
            answers,
            at,
        ) {
            StepsRun::Ask(request) => OperationRun::Ask(request),
            StepsRun::Failed(message) => OperationRun::Failed(message),
            StepsRun::Done(results, next) => OperationRun::Done(
                result_of_segments("command_list"@, results),
                next,
            ),
        },
        OperationView::MiniScript(branches) => match run_branches(branches, 0, answers, at) {
            BranchRun::Ask(path) => OperationRun::Ask(RequestView::TestPath(path)),
            BranchRun::Failed(message) => OperationRun::Failed(message),
            BranchRun::Done(chosen, next) => match chosen {
                Some(i) => if 0 <= i < branches.len() {
                    run_branch(branches[i], answers, next)
                } else {
                    arbitrary()
                },
                None => OperationRun::Done(single(nothing("mini_script"@)), next),
            },
        },
        _ => if at >= answers.len() {
            OperationRun::Ask(RequestView::Operation(operation))
        } else {
            match leaf_result(operation, answers[at as int]) {
                LeafRun::Done(result) => OperationRun::Done(result, at + 1),
                LeafRun::Failed(message) => OperationRun::Failed(message),
            }
        },
    }
}

/// Runs the steps of a branch.
pub open spec fn run_branch(branch: BranchView, answers: Seq<AnswerView>, at: nat) -> OperationRun
    decreases branch, 0nat, 0nat,
{
    match run_segments(branch.segments, branch.segments.len(), answers, at) {
        StepsRun::Ask(request) => OperationRun::Ask(request),
        StepsRun::Failed(message) => OperationRun::Failed(message),
        StepsRun::Done(results, next) => OperationRun::Done(script_result(results), next),
    }
}

/// Runs the first `n` steps, in order, up to the first that fails or asks.
pub open spec fn run_segments(
    segments: Seq<SegmentView>,
    n: nat,
    answers: Seq<AnswerView>,
    at: nat,
) -> StepsRun
    decreases segments, n, 0nat,
{
    if n == 0 || n > segments.len() {
        StepsRun::Done(Seq::empty(), at)
    } else {
        match run_segments(segments, (n - 1) as nat, answers, at) {
            StepsRun::Done(results, next) => match run_segment(segments[n - 1], answers, next) {
                OperationRun::Ask(request) => StepsRun::Ask(request),
                OperationRun::Failed(message) => StepsRun::Failed(message),
                OperationRun::Done(result, after) => StepsRun::Done(results.push(result), after),
            },
            other => other,
        }
    }
}

/// Runs one step.
pub open spec fn run_segment(segment: SegmentView, answers: Seq<AnswerView>, at: nat) -> OperationRun
    decreases segment, 0nat, 0nat,
{
    match segment {
        SegmentView::Operation(operation) => run_operation(*operation, answers, at),
        SegmentView::ReadOnlyExternal(external) => run_external(external, answers, at),
    }
}

/// How far an operation is run.
#[derive(Debug)]
pub enum OperationStep<'a> {
    Ask(Request<'a>),
    Failed(BackendError),
    Done(HookResult, usize),
}

impl<'a> OperationStep<'a> {
    /// The contents of a step.
    pub open spec fn contents(self) -> OperationRun {
        match self {
            OperationStep::Ask(request) => OperationRun::Ask(request.contents()),
            OperationStep::Failed(error) => OperationRun::Failed(error.deep_view()),
            OperationStep::Done(result, next) => OperationRun::Done(
                result.deep_view(),
                next as nat,
            ),
        }
    }
}

/// How far a list of steps is run.
#[derive(Debug)]
pub enum StepsStep<'a> {
    Ask(Request<'a>),
    Failed(BackendError),
    Done(Vec<HookResult>, usize),
}

impl<'a> StepsStep<'a> {
    /// The contents of a step.
    pub open spec fn contents(self) -> StepsRun {
        match self {
            StepsStep::Ask(request) => StepsRun::Ask(request.contents()),
            StepsStep::Failed(error) => StepsRun::Failed(error.deep_view()),
            StepsStep::Done(results, next) => StepsRun::Done(results.deep_view(), next as nat),
        }
    }
}

/// Runs a program call with the answer at `at`, if it is allowed.
pub fn execute_external<'a>(external: &'a ReadOnlyExternal, answers: &[Answer], at: usize) -> (r:
    OperationStep<'a>)
    requires
        at <= answers.len(),
    ensures
        r.contents() == run_external(external.deep_view(), answers.deep_view(), at as nat),
        r matches OperationStep::Done(_, next) ==> at <= next <= answers.len(),
{
    if let Err(error) = validate_read_only_external(external) {
        return OperationStep::Failed(error.to_error());
    }
    if at >= answers.len() {
        return OperationStep::Ask(Request::External(external));
    }
    assert(answers.deep_view()[at as int] == answers[at as int].deep_view());
    match &answers[at] {
        Answer::Text(text) => OperationStep::Done(
            HookResult::from_body("readonly_external", text.as_str()),
            at + 1,
        ),
        answer => OperationStep::Failed(refuse(answer)),
    }
}

fn finish_script(results: Vec<HookResult>) -> (r: HookResult)
    ensures
        r.deep_view() == script_result(results.deep_view()),
{
    if results.len() == 0 {
        return HookResult::empty("mini_script");
    }
    if results.len() == 1 {
        let ghost view = results.deep_view();
        let mut results = results;
        assert(view[0] == results@[0].deep_view());
        let result = results.swap_remove(0);
        return result.renamed("mini_script");
    }
    HookResult::segments("mini_script", results)
}

/// Runs an operation with the answers from `at` on.
pub fn execute_operation<'a>(operation: &'a FastOperation, answers: &[Answer], at: usize) -> (r:
    OperationStep<'a>)
    requires
        at <= answers.len(),
    ensures
        r.contents() == run_operation(
            operation_view(*operation),
            answers.deep_view(),
            at as nat,
        ),
        r matches OperationStep::Done(_, next) ==> at <= next <= answers.len(),
    decreases operation,
{
    match operation {
        FastOperation::CommandList(segments) => match execute_segments(segments, answers, at) {
            StepsStep::Ask(request) => OperationStep::Ask(request),
            StepsStep::Failed(error) => OperationStep::Failed(error),
            StepsStep::Done(results, next) => OperationStep::Done(
                HookResult::segments("command_list", results),
                next,
            ),
        },
        FastOperation::MiniScript(script) => {
            let branches = &script.branches;
            match select_branch(branches, answers, at) {
                BranchStep::Ask(path) => OperationStep::Ask(Request::TestPath(path)),
                BranchStep::Failed(error) => OperationStep::Failed(error),
                BranchStep::Done(None, next) => OperationStep::Done(
                    HookResult::empty("mini_script"),
                    next,
                ),
                BranchStep::Done(Some(i), next) => {
                    assert(branches_view(branches@)[i as int] == branch_view(branches@[i as int]));
                    match execute_segments(&branches[i].segments, answers, next) {
                        StepsStep::Ask(request) => OperationStep::Ask(request),
                        StepsStep::Failed(error) => OperationStep::Failed(error),
                        StepsStep::Done(results, next) => OperationStep::Done(
                            finish_script(results),
                            next,
                        ),
                    }
                },
            }
        },
        _ => {
            if at >= answers.len() {
                return OperationStep::Ask(Request::Operation(operation));
            }
            assert(answers.deep_view()[at as int] == answers[at as int].deep_view());
            match finish_operation(operation, &answers[at]) {
                Ok(result) => OperationStep::Done(result, at + 1),
                Err(error) => OperationStep::Failed(error),
            }
        },
    }
}

/// Runs the steps, in order, up to the first that fails or asks.
pub fn execute_segments<'a>(segments: &'a Vec<FastSegment>, answers: &[Answer], at: usize) -> (r:
    StepsStep<'a>)
    requires
        at <= answers.len(),
    ensures
        r.contents() == run_segments(
            segments_view(segments@),
            segments@.len(),
            answers.deep_view(),
            at as nat,
        ),
        r matches StepsStep::Done(_, next) ==> at <= next <= answers.len(),
    decreases segments,
{
    let ghost view = segments_view(segments@);
    let ghost a = answers.deep_view();
    let mut results: Vec<HookResult> = Vec::new();
    let mut next: usize = at;
    let mut i: usize = 0;
    assert(results.deep_view() =~= Seq::<ResultView>::empty());
    while i < segments.len()
        invariant
            i <= segments.len(),
            at <= next <= answers.len(),
            run_segments(view, i as nat, a, at as nat) == StepsRun::Done(
                results.deep_view(),
                next as nat,
            ),
        decreases segments.len() - i,
    {
        assert(view[i as int] == segment_view(segments@[i as int]));
        let ghost step = run_segment(view[i as int], a, next as nat);
        match execute_segment(&segments[i], answers, next) {
            OperationStep::Ask(request) => {
                proof {
                    lemma_stopped(view, (i + 1) as nat, a, at as nat);
                }
                return StepsStep::Ask(request);
            },
            OperationStep::Failed(error) => {
                proof {
                    lemma_stopped(view, (i + 1) as nat, a, at as nat);
                }
                return StepsStep::Failed(error);
            },
            OperationStep::Done(result, after) => {
                push_item(&mut results, result);
                next = after;
            },
        }
        i += 1;
    }
    StepsStep::Done(results, next)
}

/// Runs one step.
pub fn execute_segment<'a>(segment: &'a FastSegment, answers: &[Answer], at: usize) -> (r:
    OperationStep<'a>)
    requires
        at <= answers.len(),
    ensures
        r.contents() == run_segment(segment_view(*segment), answers.deep_view(), at as nat),
        r matches OperationStep::Done(_, next) ==> at <= next <= answers.len(),
    decreases segment,
{
    match segment {
        FastSegment::Operation(operation) => execute_operation(operation, answers, at),
        FastSegment::ReadOnlyExternal(external) => execute_external(external, answers, at),
    }
}

/// Once a step fails or asks, the steps after it change nothing.
proof fn lemma_stopped(segments: Seq<SegmentView>, n: nat, answers: Seq<AnswerView>, at: nat)
    requires
        n <= segments.len(),
        !(run_segments(segments, n, answers, at) is Done),
    ensures
        run_segments(segments, segments.len(), answers, at) == run_segments(
            segments,
            n,
            answers,
            at,
        ),
    decreases segments.len() - n,
{
    if n < segments.len() {
        assert(run_segments(segments, n + 1, answers, at) == run_segments(
            segments,
            n,
            answers,
            at,
        ));
        lemma_stopped(segments, n + 1, answers, at);
    }
}

// Laws.

proof fn lemma_condition_settled(
    condition: ConditionView,
    answers: Seq<AnswerView>,
    more: Seq<AnswerView>,
    at: nat,
)
    ensures
        !(run_condition(condition, answers, at) is Ask) ==> run_condition(
            condition,
            answers + more,
            at,
        ) == run_condition(condition, answers, at),
    decreases condition,
{
    match condition {
        ConditionView::TestPath { .. } => {
            if at < answers.len() {
                assert((answers + more)[at as int] == answers[at as int]);
            }
        },
        ConditionView::Not(inner) => {
            lemma_condition_settled(*inner, answers, more, at);
        },
        ConditionView::And(left, right) => {
            lemma_condition_settled(*left, answers, more, at);
            if let ConditionRun::Done(_, next) = run_condition(*left, answers, at) {
                lemma_condition_settled(*right, answers, more, next);
            }
        },
        ConditionView::Or(left, right) => {
            lemma_condition_settled(*left, answers, more, at);
            if let ConditionRun::Done(_, next) = run_condition(*left, answers, at) {
                lemma_condition_settled(*right, answers, more, next);
            }
        },
    }
}

proof fn lemma_branches_settled(
    branches: Seq<BranchView>,
    i: nat,
    answers: Seq<AnswerView>,
    more: Seq<AnswerView>,
    at: nat,
)
    ensures
        !(run_branches(branches, i, answers, at) is Ask) ==> run_branches(
            branches,
            i,
            answers + more,
            at,
        ) == run_branches(branches, i, answers, at),
    decreases branches.len() - i,
{
    if i < branches.len() {
        if let Some(condition) = branches[i as int].condition {
            lemma_condition_settled(condition, answers, more, at);
            if let ConditionRun::Done(_, next) = run_condition(condition, answers, at) {
                lemma_branches_settled(branches, i + 1, answers, more, next);
            }
        }
    }
}

proof fn lemma_segments_settled(
    segments: Seq<SegmentView>,
    n: nat,
    answers: Seq<AnswerView>,
    more: Seq<AnswerView>,
    at: nat,
)
    ensures
        !(run_segments(segments, n, answers, at) is Ask) ==> run_segments(
            segments,
            n,
            answers + more,
            at,
        ) == run_segments(segments, n, answers, at),
    decreases segments, n, 0nat,
{
    if 0 < n <= segments.len() {
        lemma_segments_settled(segments, (n - 1) as nat, answers, more, at);
        if let StepsRun::Done(_, next) = run_segments(segments, (n - 1) as nat, answers, at) {
            lemma_segment_settled(segments[n - 1], answers, more, next);
        }
    }
}

proof fn lemma_segment_settled(
    segment: SegmentView,
    answers: Seq<AnswerView>,
    more: Seq<AnswerView>,
    at: nat,
)
    ensures
        !(run_segment(segment, answers, at) is Ask) ==> run_segment(segment, answers + more, at)
            == run_segment(segment, answers, at),
    decreases segment, 0nat, 0nat,
{
    match segment {
        SegmentView::Operation(operation) => {
            law_settled(*operation, answers, more, at);
        },
        SegmentView::ReadOnlyExternal(_) => {
            if at < answers.len() {
                assert((answers + more)[at as int] == answers[at as int]);
            }
        },
    }
}

proof fn lemma_branch_settled(
    branch: BranchView,
    answers: Seq<AnswerView>,
    more: Seq<AnswerView>,
    at: nat,
)
    ensures
        !(run_branch(branch, answers, at) is Ask) ==> run_branch(branch, answers + more, at)
            == run_branch(branch, answers, at),
    decreases branch, 0nat, 0nat,
{
    lemma_segments_settled(branch.segments, branch.segments.len(), answers, more, at);
}

proof fn lemma_branch_chosen(branches: Seq<BranchView>, i: nat, answers: Seq<AnswerView>, at: nat)
    ensures
        run_branches(branches, i, answers, at) matches BranchRun::Done(Some(chosen), _) ==> 0
            <= chosen < branches.len(),
    decreases branches.len() - i,
{
    if i < branches.len() {
        if let Some(condition) = branches[i as int].condition {
            if let ConditionRun::Done(_, next) = run_condition(condition, answers, at) {
                lemma_branch_chosen(branches, i + 1, answers, next);
            }
        }
    }
}

/// A run that ended, in a result or in a failure, ends the same with more
/// answers: what was settled stays settled.
pub proof fn law_settled(
    operation: OperationView,
    answers: Seq<AnswerView>,
    more: Seq<AnswerView>,
    at: nat,
)
    ensures
        !(run_operation(operation, answers, at) is Ask) ==> run_operation(
            operation,
            answers + more,
            at,
        ) == run_operation(operation, answers, at),
    decreases operation, 0nat, 0nat,
{
    match operation {
        OperationView::CommandList(segments) => {
            lemma_segments_settled(segments, segments.len(), answers, more, at);
        },
        OperationView::MiniScript(branches) => {
            lemma_branches_settled(branches, 0, answers, more, at);
            lemma_branch_chosen(branches, 0, answers, at);
            if let BranchRun::Done(Some(i), next) = run_branches(branches, 0, answers, at) {
                lemma_branch_settled(branches[i], answers, more, next);
            }
        },
        _ => {
            if at < answers.len() {
                assert((answers + more)[at as int] == answers[at as int]);
            }
        },
    }
}

/// Whether a question may be asked: a program call only if it is allowed, an
/// operation only if it is no list and no script.
pub open spec fn askable(request: RequestView) -> bool {
    match request {
        RequestView::Operation(operation) => !(operation is CommandList) && !(
        operation is MiniScript),
        RequestView::External(external) => allowlisted(external),
        RequestView::TestPath(_) => true,
    }
}

proof fn lemma_segments_ask(
    segments: Seq<SegmentView>,
    n: nat,
    answers: Seq<AnswerView>,
    at: nat,
)
    ensures
        run_segments(segments, n, answers, at) matches StepsRun::Ask(request) ==> askable(request),
    decreases segments, n, 0nat,
{
    if 0 < n <= segments.len() {
        lemma_segments_ask(segments, (n - 1) as nat, answers, at);
        if let StepsRun::Done(_, next) = run_segments(segments, (n - 1) as nat, answers, at) {
            lemma_segment_asks(segments[n - 1], answers, next);
        }
    }
}

proof fn lemma_segment_asks(segment: SegmentView, answers: Seq<AnswerView>, at: nat)
    ensures
        run_segment(segment, answers, at) matches OperationRun::Ask(request) ==> askable(request),
    decreases segment, 0nat, 0nat,
{
    if let SegmentView::Operation(operation) = segment {
        law_asks_are_allowed(*operation, answers, at);
    }
}

proof fn lemma_branch_asks(branch: BranchView, answers: Seq<AnswerView>, at: nat)
    ensures
        run_branch(branch, answers, at) matches OperationRun::Ask(request) ==> askable(request),
    decreases branch, 0nat, 0nat,
{
    lemma_segments_ask(branch.segments, branch.segments.len(), answers, at);
}

/// Whatever an operation holds and whatever the answers are, no program is
/// asked for but those that are allowed.
pub proof fn law_asks_are_allowed(operation: OperationView, answers: Seq<AnswerView>, at: nat)
    ensures
        run_operation(operation, answers, at) matches OperationRun::Ask(request) ==> askable(
            request,
        ),
    decreases operation, 0nat, 0nat,
{
    match operation {
        OperationView::CommandList(segments) => {
            lemma_segments_ask(segments, segments.len(), answers, at);
        },
        OperationView::MiniScript(branches) => {
            lemma_branch_chosen(branches, 0, answers, at);
            if let BranchRun::Done(Some(i), next) = run_branches(branches, 0, answers, at) {
                lemma_branch_asks(branches[i], answers, next);
            }
        },
        _ => {},
    }
}

/// How many questions a condition may ask.
pub open spec fn condition_questions(condition: ConditionView) -> nat
    decreases condition,
{
    match condition {
        ConditionView::TestPath { .. } => 1,
        ConditionView::Not(inner) => condition_questions(*inner),
        ConditionView::And(left, right) => condition_questions(*left) + condition_questions(
            *right,
        ),
        ConditionView::Or(left, right) => condition_questions(*left) + condition_questions(*right),
    }
}

/// How many questions the conditions of the branches from `i` on may ask.
pub open spec fn choice_questions(branches: Seq<BranchView>, i: nat) -> nat
    decreases branches.len() - i,
{
    if i >= branches.len() {
        0
    } else {
        choice_questions(branches, i + 1) + match branches[i as int].condition {
            Some(condition) => condition_questions(condition),
            None => 0,
        }
    }
}

/// How many questions an operation may ask.
pub open spec fn operation_questions(operation: OperationView) -> nat
    decreases operation, 0nat, 0nat,
{
    match operation {
        OperationView::CommandList(segments) => segments_questions(segments, segments.len()),
        OperationView::MiniScript(branches) => choice_questions(branches, 0) + branches_questions(
            branches,
            branches.len(),
        ),
        _ => 1,
    }
}

/// How many questions the steps of the first `n` branches may ask.
pub open spec fn branches_questions(branches: Seq<BranchView>, n: nat) -> nat
    decreases branches, n, 0nat,
{
    if n == 0 || n > branches.len() {
        0
    } else {
        branches_questions(branches, (n - 1) as nat) + branch_questions(branches[n - 1])
    }
}

/// How many questions the steps of a branch may ask.
pub open spec fn branch_questions(branch: BranchView) -> nat
    decreases branch, 0nat, 0nat,
{
    segments_questions(branch.segments, branch.segments.len())
}

/// How many questions the first `n` steps may ask.
pub open spec fn segments_questions(segments: Seq<SegmentView>, n: nat) -> nat
    decreases segments, n, 0nat,
{
    if n == 0 || n > segments.len() {
        0
    } else {
        segments_questions(segments, (n - 1) as nat) + segment_questions(segments[n - 1])
    }
}

/// How many questions a step may ask.
pub open spec fn segment_questions(segment: SegmentView) -> nat
    decreases segment, 0nat, 0nat,
{
    match segment {
        SegmentView::Operation(operation) => operation_questions(*operation),
        SegmentView::ReadOnlyExternal(_) => 1,
    }
}

proof fn lemma_condition_bounded(condition: ConditionView, answers: Seq<AnswerView>, at: nat)
    ensures
        match run_condition(condition, answers, at) {
            ConditionRun::Ask(_) => answers.len() < at + condition_questions(condition),
            ConditionRun::Done(_, next) => next <= at + condition_questions(condition),
            ConditionRun::Failed(_) => true,
        },
    decreases condition,
{
    match condition {
        ConditionView::TestPath { .. } => {},
        ConditionView::Not(inner) => {
            lemma_condition_bounded(*inner, answers, at);
        },
        ConditionView::And(left, right) => {
            lemma_condition_bounded(*left, answers, at);
            if let ConditionRun::Done(_, next) = run_condition(*left, answers, at) {
                lemma_condition_bounded(*right, answers, next);
            }
        },
        ConditionView::Or(left, right) => {
            lemma_condition_bounded(*left, answers, at);
            if let ConditionRun::Done(_, next) = run_condition(*left, answers, at) {
                lemma_condition_bounded(*right, answers, next);
            }
        },
    }
}

proof fn lemma_choice_bounded(branches: Seq<BranchView>, i: nat, answers: Seq<AnswerView>, at: nat)
    ensures
        match run_branches(branches, i, answers, at) {
            BranchRun::Ask(_) => answers.len() < at + choice_questions(branches, i),
            BranchRun::Done(_, next) => next <= at + choice_questions(branches, i),
            BranchRun::Failed(_) => true,
        },
    decreases branches.len() - i,
{
    if i < branches.len() {
        if let Some(condition) = branches[i as int].condition {
            lemma_condition_bounded(condition, answers, at);
            if let ConditionRun::Done(_, next) = run_condition(condition, answers, at) {
                lemma_choice_bounded(branches, i + 1, answers, next);
            }
        }
    }
}

proof fn lemma_segments_bounded(
    segments: Seq<SegmentView>,
    n: nat,
    answers: Seq<AnswerView>,
    at: nat,
)
    ensures
        match run_segments(segments, n, answers, at) {
            StepsRun::Ask(_) => answers.len() < at + segments_questions(segments, n),
            StepsRun::Done(_, next) => next <= at + segments_questions(segments, n),
            StepsRun::Failed(_) => true,
        },
    decreases segments, n, 0nat,
{
    if 0 < n <= segments.len() {
        lemma_segments_bounded(segments, (n - 1) as nat, answers, at);
        if let StepsRun::Done(_, next) = run_segments(segments, (n - 1) as nat, answers, at) {
            lemma_segment_bounded(segments[n - 1], answers, next);
        }
    }
}

proof fn lemma_segment_bounded(segment: SegmentView, answers: Seq<AnswerView>, at: nat)
    ensures
        match run_segment(segment, answers, at) {
            OperationRun::Ask(_) => answers.len() < at + segment_questions(segment),
            OperationRun::Done(_, next) => next <= at + segment_questions(segment),
            OperationRun::Failed(_) => true,
        },
    decreases segment, 0nat, 0nat,
{
    if let SegmentView::Operation(operation) = segment {
        law_questions_are_bounded(*operation, answers, at);
    }
}

proof fn lemma_branch_bounded(branch: BranchView, answers: Seq<AnswerView>, at: nat)
    ensures
        match run_branch(branch, answers, at) {
            OperationRun::Ask(_) => answers.len() < at + branch_questions(branch),
            OperationRun::Done(_, next) => next <= at + branch_questions(branch),
            OperationRun::Failed(_) => true,
        },
    decreases branch, 0nat, 0nat,
{
    lemma_segments_bounded(branch.segments, branch.segments.len(), answers, at);
}

proof fn lemma_one_branch(branches: Seq<BranchView>, n: nat, i: int)
    requires
        0 <= i < n <= branches.len(),
    ensures
        branch_questions(branches[i]) <= branches_questions(branches, n),
    decreases n,
{
    if i < n - 1 {
        lemma_one_branch(branches, (n - 1) as nat, i);
    }
}

/// An operation asks no more than a fixed number of questions, whatever the
/// answers are: with so many answers the run has ended.
pub proof fn law_questions_are_bounded(operation: OperationView, answers: Seq<AnswerView>, at: nat)
    ensures
        match run_operation(operation, answers, at) {
            OperationRun::Ask(_) => answers.len() < at + operation_questions(operation),
            OperationRun::Done(_, next) => next <= at + operation_questions(operation),
            OperationRun::Failed(_) => true,
        },
    decreases operation, 0nat, 0nat,
{
    match operation {
        OperationView::CommandList(segments) => {
            lemma_segments_bounded(segments, segments.len(), answers, at);
        },
        OperationView::MiniScript(branches) => {
            lemma_choice_bounded(branches, 0, answers, at);
            lemma_branch_chosen(branches, 0, answers, at);
            if let BranchRun::Done(Some(i), next) = run_branches(branches, 0, answers, at) {
                lemma_branch_bounded(branches[i], answers, next);
                lemma_one_branch(branches, branches.len(), i);
            }
        },
        _ => {},
    }
}

} // verus!
