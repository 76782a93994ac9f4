//! The hook that an agent calls around its tools.
//!
//! A call is read into a plan, and the plan is carried out step by step
//! against the answers so far, as an operation is: each step asks for one
//! more thing to be done, or ends with what the hook prints, if anything.
#![verifier::loop_isolation(false)]

use crate::case::{lowered, to_lowercase};
use crate::error::BackendError;
use crate::integrations::execution::{
    askable, execute_operation, kind_of, law_asks_are_allowed, law_questions_are_bounded, law_settled,
    operation_kind, operation_questions, run_operation, Answer, AnswerView, OperationRun,
    OperationStep, Request, RequestView,
};
use crate::integrations::hook_result::{result_lines, HookResult, ResultView};
use crate::integrations::post_edit_check::{
    apply_patch_succeeded, entries_of, no_failure, report_lines, targets_of, touched,
    touched_paths_from_apply_patch, PatchTargetView,
};
use crate::integrations::project_check::{
    diagnostics_text, render_project_check_failures, DiagnosticView,
};
use crate::json::{
    compact, compact_json, find_member, json_fields, json_string, json_text, member_of,
    read_fields, read_text, write_text,
};
use crate::number::{decimal, push_decimal};
use crate::shell_parse::classify::{DecisionView, UnknownView};
use crate::shell_parse::operation::{operation_view, FastOperation, OperationView};
use crate::shell_parse::{classify_powershell, decision_of, ParseDecision, UnknownCommand};
use crate::split::{joined, lines_of, split_char, split_on};
use crate::text::{
    clone_option, clone_texts, is_whitespace, option_is, option_str, owned, push_item, same,
    text_range, to_chars, trim_class, trimmed_of, whitespace, CharClass,
};
use crate::unknown_log::{ContextView, HookLogContext};
use vstd::prelude::*;
use vstd::slice::slice_subrange;

verus! {

// Reading a call.

/// What the agent says of its tool call.
#[derive(Debug, Clone, PartialEq, Eq)]
pub struct ToolInput {
    pub command: Option<String>,
}

/// What the agent says.
#[derive(Debug, Clone, PartialEq, Eq)]
pub struct HookInput {
    pub hook_event_name: Option<String>,
    pub session_id: Option<String>,
    pub turn_id: Option<String>,
    pub model: Option<String>,
    pub prompt: Option<String>,
    pub cwd: Option<String>,
    pub tool_name: Option<String>,
    pub tool_input: Option<ToolInput>,
    /// The answer of the tool, a JSON text.
    pub tool_response: Option<String>,
}

/// The contents of what the agent says.
#[verifier::ext_equal]
pub ghost struct InputView {
    pub hook_event_name: Option<Seq<char>>,
    pub session_id: Option<Seq<char>>,
    pub turn_id: Option<Seq<char>>,
    pub model: Option<Seq<char>>,
    pub prompt: Option<Seq<char>>,
    pub cwd: Option<Seq<char>>,
    pub tool_name: Option<Seq<char>>,
    pub tool_input: Option<Option<Seq<char>>>,
    pub tool_response: Option<Seq<char>>,
}

impl DeepView for ToolInput {
    type V = Option<Seq<char>>;

    open spec fn deep_view(&self) -> Option<Seq<char>> {
        self.command.deep_view()
    }
}

impl DeepView for HookInput {
    type V = InputView;

    open spec fn deep_view(&self) -> InputView {
        InputView {
            hook_event_name: self.hook_event_name.deep_view(),
            session_id: self.session_id.deep_view(),
            turn_id: self.turn_id.deep_view(),
            model: self.model.deep_view(),
            prompt: self.prompt.deep_view(),
            cwd: self.cwd.deep_view(),
            tool_name: self.tool_name.deep_view(),
            tool_input: self.tool_input.deep_view(),
            tool_response: self.tool_response.deep_view(),
        }
    }
}

/// The text of a member: none where there is no such member or it is null.
pub open spec fn text_member(members: Seq<(Seq<char>, Seq<char>)>, name: Seq<char>) -> Option<
    Option<Seq<char>>,
> {
    match member_of(members, name) {
        Some(value) => json_text(value),
        None => Some(None),
    }
}

/// The JSON text of a member: none where there is no such member or it is
/// null.
pub open spec fn value_member(members: Seq<(Seq<char>, Seq<char>)>, name: Seq<char>) -> Option<
    Seq<char>,
> {
    match member_of(members, name) {
        Some(value) => if value == "null"@ {
            None
        } else {
            Some(value)
        },
        None => None,
    }
}

/// The members of what the agent says.
pub open spec fn input_names() -> Seq<Seq<char>> {
    seq![
        "hook_event_name"@,
        "session_id"@,
        "turn_id"@,
        "model"@,
        "prompt"@,
        "cwd"@,
        "tool_name"@,
        "tool_input"@,
        "tool_response"@,
    ]
}

fn list_input_names() -> (r: Vec<String>)
    ensures
        r.deep_view() == input_names(),
{
    let mut names: Vec<String> = Vec::new();
    push_item(&mut names, owned("hook_event_name"));
    push_item(&mut names, owned("session_id"));
    push_item(&mut names, owned("turn_id"));
    push_item(&mut names, owned("model"));
    push_item(&mut names, owned("prompt"));
    push_item(&mut names, owned("cwd"));
    push_item(&mut names, owned("tool_name"));
    push_item(&mut names, owned("tool_input"));
    push_item(&mut names, owned("tool_response"));
    assert(names.deep_view() =~= input_names());
    names
}

/// The tool call in a JSON text, its command where it has one.
pub open spec fn tool_call(value: Option<Seq<char>>) -> Option<Option<Option<Seq<char>>>> {
    match value {
        Some(value) => match json_fields(value, seq!["command"@]) {
            Some(members) => match text_member(members, "command"@) {
                Some(command) => Some(Some(command)),
                None => None,
            },
            None => None,
        },
        None => Some(None),
    }
}

/// Whether the answer of the tool can be read where it stands, one level deep,
/// if there is one.
pub open spec fn readable_response(value: Option<Seq<char>>) -> bool {
    value matches Some(text) ==> compact_json(seq!['['] + text + seq![']']) is Some
}

/// What the agent says in a JSON object; none where a member is not what it
/// should be.
pub open spec fn input_in(members: Seq<(Seq<char>, Seq<char>)>) -> Option<InputView> {
    match (
        text_member(members, "hook_event_name"@),
        text_member(members, "session_id"@),
        text_member(members, "turn_id"@),
        text_member(members, "model"@),
        text_member(members, "prompt"@),
        text_member(members, "cwd"@),
        text_member(members, "tool_name"@),
        tool_call(value_member(members, "tool_input"@)),
    ) {
        (
            Some(hook_event_name),
            Some(session_id),
            Some(turn_id),
            Some(model),
            Some(prompt),
            Some(cwd),
            Some(tool_name),
            Some(tool_input),
        ) => if readable_response(value_member(members, "tool_response"@)) {
            Some(InputView {
                hook_event_name,
                session_id,
                turn_id,
                model,
                prompt,
                cwd,
                tool_name,
                tool_input,
                tool_response: value_member(members, "tool_response"@),
            })
        } else {
            None
        },
        _ => None,
    }
}

/// What the agent says in a JSON text: none where it is not JSON, a member
/// stands there twice, or one is not what it should be.
pub open spec fn input_of(text: Seq<char>) -> Option<InputView> {
    match json_fields(text, input_names()) {
        Some(members) => input_in(members),
        None => None,
    }
}

fn read_text_member(members: &Vec<(String, String)>, name: &str) -> (r: Result<
    Option<String>,
    String,
>)
    ensures
        match r {
            Ok(text) => text_member(members.deep_view(), name@) == Some(text.deep_view()),
            Err(_) => text_member(members.deep_view(), name@) is None,
        },
{
    match find_member(members, name) {
        Some(value) => read_text(value),
        None => Ok(None),
    }
}

fn read_value_member(members: &Vec<(String, String)>, name: &str) -> (r: Option<String>)
    ensures
        r.deep_view() == value_member(members.deep_view(), name@),
{
    match find_member(members, name) {
        Some(value) => if same(value, "null") {
            None
        } else {
            Some(owned(value))
        },
        None => None,
    }
}

fn read_tool_call(value: Option<String>) -> (r: Result<Option<ToolInput>, String>)
    ensures
        match r {
            Ok(call) => tool_call(value.deep_view()) == Some(call.deep_view()),
            Err(_) => tool_call(value.deep_view()) is None,
        },
{
    let value = match value {
        Some(value) => value,
        None => {
            return Ok(None);
        },
    };
    let mut names: Vec<String> = Vec::new();
    push_item(&mut names, owned("command"));
    assert(names.deep_view() =~= seq!["command"@]);
    match read_fields(value.as_str(), &names) {
        Ok(members) => match read_text_member(&members, "command") {
            Ok(command) => Ok(Some(ToolInput { command })),
            Err(message) => Err(message),
        },
        Err(message) => Err(message),
    }
}

/// The members that are read as texts, in order.
struct TextMembers {
    hook_event_name: Option<String>,
    session_id: Option<String>,
    turn_id: Option<String>,
    model: Option<String>,
    prompt: Option<String>,
    cwd: Option<String>,
    tool_name: Option<String>,
}

fn read_text_members(members: &Vec<(String, String)>) -> (r: Result<TextMembers, String>)
    ensures
        ({
            let m = members.deep_view();
            match r {
                Ok(t) => {
                    &&& text_member(m, "hook_event_name"@) == Some(t.hook_event_name.deep_view())
                    &&& text_member(m, "session_id"@) == Some(t.session_id.deep_view())
                    &&& text_member(m, "turn_id"@) == Some(t.turn_id.deep_view())
                    &&& text_member(m, "model"@) == Some(t.model.deep_view())
                    &&& text_member(m, "prompt"@) == Some(t.prompt.deep_view())
                    &&& text_member(m, "cwd"@) == Some(t.cwd.deep_view())
                    &&& text_member(m, "tool_name"@) == Some(t.tool_name.deep_view())
                },
                Err(_) => input_in(m) is None,
            }
        }),
{
    let hook_event_name = read_text_member(members, "hook_event_name")?;
    let session_id = read_text_member(members, "session_id")?;
    let turn_id = read_text_member(members, "turn_id")?;
    let model = read_text_member(members, "model")?;
    let prompt = read_text_member(members, "prompt")?;
    let cwd = read_text_member(members, "cwd")?;
    let tool_name = read_text_member(members, "tool_name")?;
    Ok(TextMembers { hook_event_name, session_id, turn_id, model, prompt, cwd, tool_name })
}

/// What the agent says in a JSON text; fails where it is not what it should
/// be.
pub fn parse_hook_input(text: &str) -> (r: Result<HookInput, BackendError>)
    ensures
        match r {
            Ok(input) => input_of(text@) == Some(input.deep_view()),
            Err(_) => input_of(text@) is None,
        },
{
    let members = match read_fields(text, &list_input_names()) {
        Ok(members) => members,
        Err(message) => {
            return Err(BackendError { message });
        },
    };
    let texts = match read_text_members(&members) {
        Ok(texts) => texts,
        Err(message) => {
            return Err(BackendError { message });
        },
    };
    let tool_input = match read_tool_call(read_value_member(&members, "tool_input")) {
        Ok(tool_input) => tool_input,
        Err(message) => {
            return Err(BackendError { message });
        },
    };
    let tool_response = read_value_member(&members, "tool_response");
    if let Some(response) = &tool_response {
        let mut nested = String::new();
        nested.push('[');
        nested.append(response.as_str());
        nested.push(']');
        assert(nested@ =~= seq!['['] + response@ + seq![']']);
        if compact(nested.as_str()).is_none() {
            return Err(BackendError::new("invalid tool_response"));
        }
    }
    Ok(
        HookInput {
            hook_event_name: texts.hook_event_name,
            session_id: texts.session_id,
            turn_id: texts.turn_id,
            model: texts.model,
            prompt: texts.prompt,
            cwd: texts.cwd,
            tool_name: texts.tool_name,
            tool_input,
            tool_response,
        },
    )
}

// Kinds of calls.

impl InputView {
    /// Whether a prompt was submitted.
    pub open spec fn submits_prompt(self) -> bool {
        match self.hook_event_name {
            Some(name) => name == "UserPromptSubmit"@,
            None => self.prompt is Some && self.tool_input is None,
        }
    }

    /// Whether a patch was applied.
    pub open spec fn follows_patch(self) -> bool {
        self.hook_event_name == Some("PostToolUse"@) && self.tool_name == Some("apply_patch"@)
    }

    /// Whether the turn ends.
    pub open spec fn ends_turn(self) -> bool {
        self.hook_event_name == Some("Stop"@)
    }

    /// Whether a shell command is about to be run.
    pub open spec fn precedes_shell(self) -> bool {
        match self.hook_event_name {
            Some(name) => name == "PreToolUse"@ && (self.tool_name matches Some(tool) ==> tool
                == "Bash"@),
            None => self.tool_input is Some,
        }
    }

    /// The command of the tool call.
    pub open spec fn command(self) -> Option<Seq<char>> {
        match self.tool_input {
            Some(command) => command,
            None => None,
        }
    }

    /// Whether the tool says that it succeeded.
    pub open spec fn patch_succeeded(self) -> bool {
        self.tool_response matches Some(text) && compact_json(text) matches Some(answer)
            && no_failure(answer)
    }

    /// Where a command came from.
    pub open spec fn context(self) -> ContextView {
        ContextView {
            session_id: self.session_id,
            turn_id: self.turn_id,
            model: self.model,
            cwd: self.cwd,
        }
    }
}

impl HookInput {
    /// Whether a prompt was submitted.
    pub fn is_user_prompt_submit(&self) -> (r: bool)
        ensures
            r == self.deep_view().submits_prompt(),
    {
        match &self.hook_event_name {
            Some(name) => same(name.as_str(), "UserPromptSubmit"),
            None => self.prompt.is_some() && self.tool_input.is_none(),
        }
    }

    /// Whether a patch was applied.
    pub fn is_post_tool_use_apply_patch(&self) -> (r: bool)
        ensures
            r == self.deep_view().follows_patch(),
    {
        option_is(option_str(&self.hook_event_name), "PostToolUse") && option_is(
            option_str(&self.tool_name),
            "apply_patch",
        )
    }

    /// Whether the turn ends.
    pub fn is_stop(&self) -> (r: bool)
        ensures
            r == self.deep_view().ends_turn(),
    {
        option_is(option_str(&self.hook_event_name), "Stop")
    }

    /// Whether a shell command is about to be run.
    pub fn is_pre_tool_use_or_legacy_shell(&self) -> (r: bool)
        ensures
            r == self.deep_view().precedes_shell(),
    {
        match &self.hook_event_name {
            Some(name) => same(name.as_str(), "PreToolUse") && match &self.tool_name {
                Some(tool) => same(tool.as_str(), "Bash"),
                None => true,
            },
            None => self.tool_input.is_some(),
        }
    }

    /// The command of the tool call.
    pub fn command(&self) -> (r: Option<&str>)
        ensures
            r.deep_view() == self.deep_view().command(),
    {
        match &self.tool_input {
            Some(tool) => option_str(&tool.command),
            None => None,
        }
    }

    /// Where a command came from.
    pub fn log_context(&self) -> (r: HookLogContext)
        ensures
            r.deep_view() == self.deep_view().context(),
    {
        HookLogContext {
            session_id: clone_option(&self.session_id),
            turn_id: clone_option(&self.turn_id),
            model: clone_option(&self.model),
            cwd: clone_option(&self.cwd),
        }
    }
}

// Plans.

/// What is to be done about a call.
#[derive(Debug)]
pub enum HookPlan {
    /// Nothing.
    Ignore,
    /// Look up what a prompt refers to.
    Enrich { prompt: String },
    /// Check the project if files were edited in the turn.
    CheckProject { cwd: String, session_id: Option<String>, turn_id: Option<String> },
    /// Note the edited files and check them.
    CheckEdit {
        session_id: Option<String>,
        turn_id: Option<String>,
        cwd: Option<String>,
        paths: Vec<String>,
    },
    /// Run an operation in place of the command.
    Execute { command: String, operation: FastOperation, context: HookLogContext },
    /// Note a command that is not understood.
    LogUnknown { command: String, detail: UnknownCommand, context: HookLogContext },
}

/// The contents of a plan.
#[verifier::ext_equal]
pub ghost enum PlanView {
    Ignore,
    Enrich { prompt: Seq<char> },
    CheckProject {
        cwd: Seq<char>,
        session_id: Option<Seq<char>>,
        turn_id: Option<Seq<char>>,
    },
    CheckEdit {
        session_id: Option<Seq<char>>,
        turn_id: Option<Seq<char>>,
        cwd: Option<Seq<char>>,
        paths: Seq<Seq<char>>,
    },
    Execute { command: Seq<char>, operation: OperationView, context: ContextView },
    LogUnknown { command: Seq<char>, detail: UnknownView, context: ContextView },
}

impl DeepView for HookPlan {
    type V = PlanView;

    open spec fn deep_view(&self) -> PlanView {
        match self {
            HookPlan::Ignore => PlanView::Ignore,
            HookPlan::Enrich { prompt } => PlanView::Enrich { prompt: prompt@ },
            HookPlan::CheckProject { cwd, session_id, turn_id } => PlanView::CheckProject {
                cwd: cwd@,
                session_id: session_id.deep_view(),
                turn_id: turn_id.deep_view(),
            },
            HookPlan::CheckEdit { session_id, turn_id, cwd, paths } => PlanView::CheckEdit {
                session_id: session_id.deep_view(),
                turn_id: turn_id.deep_view(),
                cwd: cwd.deep_view(),
                paths: paths.deep_view(),
            },
            HookPlan::Execute { command, operation, context } => PlanView::Execute {
                command: command@,
                operation: operation_view(*operation),
                context: context.deep_view(),
            },
            HookPlan::LogUnknown { command, detail, context } => PlanView::LogUnknown {
                command: command@,
                detail: detail.deep_view(),
                context: context.deep_view(),
            },
        }
    }
}

/// What is to be done about a shell command.
pub open spec fn shell_plan(input: InputView) -> PlanView {
    match input.command() {
        Some(command) => match decision_of(command, input.cwd) {
            DecisionView::Fast(operation) => PlanView::Execute {
                command,
                operation,
                context: input.context(),
            },
            DecisionView::UnknownCandidate(detail) => PlanView::LogUnknown {
                command,
                detail,
                context: input.context(),
            },
            DecisionView::PassThrough(_) => PlanView::Ignore,
        },
        None => PlanView::Ignore,
    }
}

/// What is to be done about a call, given the files that its patch touches,
/// if it holds one.
pub open spec fn plan_of(input: InputView, paths: Option<Seq<Seq<char>>>) -> PlanView {
    if input.submits_prompt() {
        match input.prompt {
            Some(prompt) => PlanView::Enrich { prompt },
            None => PlanView::Ignore,
        }
    } else if input.ends_turn() {
        match input.cwd {
            Some(cwd) => PlanView::CheckProject {
                cwd,
                session_id: input.session_id,
                turn_id: input.turn_id,
            },
            None => PlanView::Ignore,
        }
    } else if input.follows_patch() {
        match paths {
            Some(paths) => if input.patch_succeeded() && input.command() is Some {
                PlanView::CheckEdit {
                    session_id: input.session_id,
                    turn_id: input.turn_id,
                    cwd: input.cwd,
                    paths,
                }
            } else {
                PlanView::Ignore
            },
            None => PlanView::Ignore,
        }
    } else if input.precedes_shell() {
        shell_plan(input)
    } else {
        PlanView::Ignore
    }
}

fn plan_shell(input: &HookInput) -> (r: HookPlan)
    ensures
        r.deep_view() == shell_plan(input.deep_view()),
{
    let command = match input.command() {
        Some(command) => command,
        None => {
            return HookPlan::Ignore;
        },
    };
    match classify_powershell(command, option_str(&input.cwd)) {
        ParseDecision::Fast(operation) => HookPlan::Execute {
            command: owned(command),
            operation,
            context: input.log_context(),
        },
        ParseDecision::UnknownCandidate(detail) => HookPlan::LogUnknown {
            command: owned(command),
            detail,
            context: input.log_context(),
        },
        ParseDecision::PassThrough(_) => HookPlan::Ignore,
    }
}

/// What is to be done about a call, given the files that its patch touches.
pub fn plan_with_paths(input: &HookInput, paths: Option<Vec<String>>) -> (r: HookPlan)
    ensures
        r.deep_view() == plan_of(input.deep_view(), paths.deep_view()),
{
    if input.is_user_prompt_submit() {
        return match &input.prompt {
            Some(prompt) => HookPlan::Enrich { prompt: prompt.clone() },
            None => HookPlan::Ignore,
        };
    }
    if input.is_stop() {
        return match &input.cwd {
            Some(cwd) => HookPlan::CheckProject {
                cwd: cwd.clone(),
                session_id: clone_option(&input.session_id),
                turn_id: clone_option(&input.turn_id),
            },
            None => HookPlan::Ignore,
        };
    }
    if input.is_post_tool_use_apply_patch() {
        if !apply_patch_succeeded(option_str(&input.tool_response)) || input.command().is_none() {
            return HookPlan::Ignore;
        }
        return match paths {
            Some(paths) => HookPlan::CheckEdit {
                session_id: clone_option(&input.session_id),
                turn_id: clone_option(&input.turn_id),
                cwd: clone_option(&input.cwd),
                paths,
            },
            None => HookPlan::Ignore,
        };
    }
    if input.is_pre_tool_use_or_legacy_shell() {
        plan_shell(input)
    } else {
        HookPlan::Ignore
    }
}

/// Whether these are the files that the patch in a call touches, as the host
/// resolves their paths.
pub open spec fn patch_touches(input: InputView, paths: Option<Seq<Seq<char>>>) -> bool {
    input.command() matches Some(command) ==> exists|targets: Seq<PatchTargetView>| #[trigger]
        targets_of(entries_of(lines_of(command)), input.cwd, targets) && paths == touched(targets)
}

/// What is to be done about a call.
pub fn plan_hook(input: &HookInput) -> (r: HookPlan)
    ensures
        exists|paths: Option<Seq<Seq<char>>>| #[trigger]
            patch_touches(input.deep_view(), paths) && r.deep_view() == plan_of(
                input.deep_view(),
                paths,
            ),
{
    let paths = match input.command() {
        Some(command) => touched_paths_from_apply_patch(command, option_str(&input.cwd)),
        None => None,
    };
    proof {
        let view = input.deep_view();
        assert(patch_touches(view, paths.deep_view())) by {
            if let Some(command) = view.command() {
                let targets = choose|targets: Seq<PatchTargetView>| #[trigger]
                    targets_of(entries_of(lines_of(command)), view.cwd, targets)
                        && paths.deep_view() == touched(targets);
                assert(targets_of(entries_of(lines_of(command)), view.cwd, targets));
            }
        }
    }
    plan_with_paths(input, paths)
}

/// What is to be done about the call in a JSON text; fails where it is not
/// what it should be.
pub fn handle_hook_json(input: &str) -> (r: Result<HookPlan, BackendError>)
    ensures
        r is Ok <==> input_of(input@) is Some,
        r matches Ok(plan) ==> exists|paths: Option<Seq<Seq<char>>>| #[trigger]
            patch_touches(input_of(input@)->0, paths) && plan.deep_view() == plan_of(
                input_of(input@)->0,
                paths,
            ),
{
    match parse_hook_input(input) {
        Ok(read) => {
            let plan = plan_hook(&read);
            proof {
                let view = input_of(input@)->0;
                assert(view == read.deep_view());
                let paths = choose|paths: Option<Seq<Seq<char>>>| #[trigger]
                    patch_touches(read.deep_view(), paths) && plan.deep_view() == plan_of(
                        read.deep_view(),
                        paths,
                    );
                assert(patch_touches(view, paths));
            }
            Ok(plan)
        },
        Err(error) => Err(error),
    }
}

// Output.

/// What the hook prints to stop a call, with the reason.
pub open spec fn block_output(reason: Seq<char>) -> Seq<char> {
    "{\"decision\":\"block\",\"reason\":"@ + json_string(reason) + "}"@
}

/// What the hook prints to add to a prompt.
pub open spec fn prompt_output(context: Seq<char>) -> Seq<char> {
    "{\"hookSpecificOutput\":{\"additionalContext\":"@ + json_string(context)
        + ",\"hookEventName\":\"UserPromptSubmit\"}}"@
}

/// What the hook prints to stop after an edit, with what was found.
pub open spec fn edit_output(findings: Seq<char>) -> Seq<char> {
    "{\"decision\":\"block\",\"hookSpecificOutput\":{\"additionalContext\":"@ + json_string(
        findings,
    ) + ",\"hookEventName\":\"PostToolUse\"},\"reason\":"@ + json_string(
        "slowcatch_post_edit_check v1 issues\n\n"@ + findings,
    ) + "}"@
}

/// What the hook prints where an operation was run in place of a command.
pub open spec fn fast_output(result: ResultView) -> Seq<char> {
    block_output(
        "FAST_PATH_SUCCESS: executed slowcatch substitute output; do not retry the original command.\n\n"@
            + joined(result_lines(result), "\n"@),
    )
}

/// What the hook prints where checks of the project failed.
pub open spec fn project_output(diagnostics: Seq<DiagnosticView>) -> Seq<char> {
    block_output("slowcatch_project_check v1 failed\n\n"@ + diagnostics_text(diagnostics))
}

fn render_block(reason: &str) -> (r: String)
    ensures
        r@ == block_output(reason@),
{
    let mut out = owned("{\"decision\":\"block\",\"reason\":");
    out.append(write_text(reason).as_str());
    out.append("}");
    out
}

/// What the hook prints to add to a prompt.
pub fn render_prompt_context(context: &str) -> (r: String)
    ensures
        r@ == prompt_output(context@),
{
    let mut out = owned("{\"hookSpecificOutput\":{\"additionalContext\":");
    out.append(write_text(context).as_str());
    out.append(",\"hookEventName\":\"UserPromptSubmit\"}}");
    out
}

/// What the hook prints to stop after an edit, with what was found.
pub fn render_edit_report(findings: &str) -> (r: String)
    ensures
        r@ == edit_output(findings@),
{
    let mut reason = owned("slowcatch_post_edit_check v1 issues\n\n");
    reason.append(findings);
    let mut out = owned(
        "{\"decision\":\"block\",\"hookSpecificOutput\":{\"additionalContext\":",
    );
    out.append(write_text(findings).as_str());
    out.append(",\"hookEventName\":\"PostToolUse\"},\"reason\":");
    out.append(write_text(reason.as_str()).as_str());
    out.append("}");
    out
}

/// What the hook prints where an operation was run in place of a command.
pub fn render_fast_result(result: &HookResult) -> (r: String)
    ensures
        r@ == fast_output(result.deep_view()),
{
    let mut reason = owned(
        "FAST_PATH_SUCCESS: executed slowcatch substitute output; do not retry the original command.\n\n",
    );
    reason.append(result.render().as_str());
    render_block(reason.as_str())
}

// Failures.

/// The first word of a text.
pub open spec fn first_word(s: Seq<char>) -> Option<Seq<char>>
    decreases s.len(),
{
    if s.len() == 0 {
        None
    } else if whitespace(s[0]) {
        first_word(s.skip(1))
    } else {
        Some(s.take(word_len(s) as int))
    }
}

/// How many characters are before the first white space.
pub open spec fn word_len(s: Seq<char>) -> nat
    decreases s.len(),
{
    if s.len() == 0 || whitespace(s[0]) {
        0
    } else {
        1 + word_len(s.skip(1))
    }
}

fn find_first_word(text: &str) -> (r: Option<String>)
    ensures
        r.deep_view() == first_word(text@),
{
    let chars = to_chars(text);
    let mut start: usize = 0;
    assert(chars@.skip(0) =~= chars@);
    while start < chars.len() && is_whitespace(chars[start])
        invariant
            start <= chars.len(),
            first_word(chars@.skip(start as int)) == first_word(text@),
        decreases chars.len() - start,
    {
        assert(chars@.skip(start as int).skip(1) =~= chars@.skip(start + 1));
        start += 1;
    }
    let ghost rest = chars@.skip(start as int);
    if start == chars.len() {
        assert(rest.len() == 0);
        return None;
    }
    let mut end: usize = start;
    assert(rest.skip(0) =~= rest);
    while end < chars.len() && !is_whitespace(chars[end])
        invariant
            start <= end <= chars.len(),
            word_len(rest) == (end - start) + word_len(chars@.skip(end as int)),
        decreases chars.len() - end,
    {
        assert(chars@.skip(end as int).skip(1) =~= chars@.skip(end + 1));
        end += 1;
    }
    assert(word_len(chars@.skip(end as int)) == 0);
    let word = text_range(&chars, start, end);
    assert(word@ =~= rest.take(end - start));
    Some(word)
}

/// The name of a command from its first word.
pub open spec fn fast_command_name(word: Seq<char>) -> Seq<char> {
    lowered(trimmed_of(trimmed_of(word, CharClass::Only('"')), CharClass::Only('\'')))
}

/// The names of the commands of the parts that have words.
pub open spec fn fast_names_of(parts: Seq<Seq<char>>) -> Seq<Seq<char>>
    decreases parts.len(),
{
    if parts.len() == 0 {
        Seq::empty()
    } else {
        let before = fast_names_of(parts.drop_last());
        match first_word(parts.last()) {
            Some(word) => before.push(fast_command_name(word)),
            None => before,
        }
    }
}

/// The names of the commands of a pipeline.
pub fn pipeline_commands_from_fast_command(command: &str) -> (r: Vec<String>)
    ensures
        r.deep_view() == fast_names_of(split_on(command@, '|')),
{
    let parts = split_char(command, '|');
    let ghost view = parts.deep_view();
    let mut names: Vec<String> = Vec::new();
    let mut i: usize = 0;
    assert(names.deep_view() =~= fast_names_of(view.take(0)));
    while i < parts.len()
        invariant
            i <= parts.len(),
            names.deep_view() == fast_names_of(view.take(i as int)),
        decreases parts.len() - i,
    {
        proof {
            assert(view.take(i + 1).drop_last() =~= view.take(i as int));
            assert(view.take(i + 1).last() == parts[i as int]@);
        }
        if let Some(word) = find_first_word(parts[i].as_str()) {
            let plain = trim_class(word.as_str(), CharClass::Only('"'));
            let plain = trim_class(plain.as_str(), CharClass::Only('\''));
            push_item(&mut names, to_lowercase(plain.as_str()));
        }
        i += 1;
    }
    assert(view.take(i as int) =~= view);
    names
}

/// What is noted of an operation that failed.
pub open spec fn failure_detail(
    command: Seq<char>,
    operation: OperationView,
    message: Seq<char>,
) -> UnknownView {
    let names = fast_names_of(split_on(command, '|'));
    UnknownView {
        reason: "fast_path_backend_failure:"@ + kind_of(operation) + ": "@ + message,
        first_command: if names.len() > 0 {
            Some(names[0])
        } else {
            None
        },
        pipeline_commands: names,
        normalized_shape: "fast_path_failure:"@ + kind_of(operation),
    }
}

/// What is noted of an operation that failed.
pub fn fast_path_failure(command: &str, operation: &FastOperation, error: &BackendError) -> (r:
    UnknownCommand)
    ensures
        r.deep_view() == failure_detail(command@, operation_view(*operation), error.deep_view()),
{
    let kind = operation_kind(operation);
    let mut reason = owned("fast_path_backend_failure:");
    reason.append(kind);
    reason.append(": ");
    reason.append(error.message.as_str());
    let pipeline_commands = pipeline_commands_from_fast_command(command);
    let first_command = if pipeline_commands.len() > 0 {
        assert(pipeline_commands.deep_view()[0] == pipeline_commands[0]@);
        Some(pipeline_commands[0].clone())
    } else {
        None
    };
    let mut normalized_shape = owned("fast_path_failure:");
    normalized_shape.append(kind);
    UnknownCommand { reason, first_command, pipeline_commands, normalized_shape }
}

/// The failure of an operation that took too long.
pub fn hook_timeout(milliseconds: u128) -> (r: BackendError)
    ensures
        r.deep_view() == "hook operation timed out after "@ + decimal(milliseconds as nat) + "ms"@,
{
    let mut message = owned("hook operation timed out after ");
    push_decimal(&mut message, milliseconds);
    message.append("ms");
    BackendError { message }
}

// Steps.

/// What is to be done next.
#[derive(Debug)]
pub enum HookRequest<'a> {
    /// Look up what a prompt refers to.
    Enrich { prompt: &'a str },
    /// Read which files were edited in a turn.
    ReadTouched { session_id: Option<&'a str>, turn_id: Option<&'a str> },
    /// Check the project around a directory.
    CheckProject { cwd: &'a str, touched: &'a Vec<String> },
    /// Note which files were edited in a turn.
    RecordTouched {
        session_id: Option<&'a str>,
        turn_id: Option<&'a str>,
        cwd: Option<&'a str>,
        paths: &'a Vec<String>,
    },
    /// Check files.
    CheckFiles { paths: &'a Vec<String> },
    /// Answer a question of an operation.
    Run(Request<'a>),
    /// Note a command that was not taken over.
    Log { command: &'a str, detail: UnknownCommand, context: &'a HookLogContext },
}

/// The contents of what is to be done next.
#[verifier::ext_equal]
pub ghost enum HookRequestView {
    Enrich { prompt: Seq<char> },
    ReadTouched { session_id: Option<Seq<char>>, turn_id: Option<Seq<char>> },
    CheckProject { cwd: Seq<char>, touched: Seq<Seq<char>> },
    RecordTouched {
        session_id: Option<Seq<char>>,
        turn_id: Option<Seq<char>>,
        cwd: Option<Seq<char>>,
        paths: Seq<Seq<char>>,
    },
    CheckFiles { paths: Seq<Seq<char>> },
    Run(RequestView),
    Log { command: Seq<char>, detail: UnknownView, context: ContextView },
}

impl<'a> HookRequest<'a> {
    /// The contents of what is to be done next.
    pub open spec fn contents(self) -> HookRequestView {
        match self {
            HookRequest::Enrich { prompt } => HookRequestView::Enrich { prompt: prompt@ },
            HookRequest::ReadTouched { session_id, turn_id } => HookRequestView::ReadTouched {
                session_id: session_id.deep_view(),
                turn_id: turn_id.deep_view(),
            },
            HookRequest::CheckProject { cwd, touched } => HookRequestView::CheckProject {
                cwd: cwd@,
                touched: touched.deep_view(),
            },
            HookRequest::RecordTouched { session_id, turn_id, cwd, paths } => {
                HookRequestView::RecordTouched {
                    session_id: session_id.deep_view(),
                    turn_id: turn_id.deep_view(),
                    cwd: cwd.deep_view(),
                    paths: paths.deep_view(),
                }
            },
            HookRequest::CheckFiles { paths } => HookRequestView::CheckFiles {
                paths: paths.deep_view(),
            },
            HookRequest::Run(request) => HookRequestView::Run(request.contents()),
            HookRequest::Log { command, detail, context } => HookRequestView::Log {
                command: command@,
                detail: detail.deep_view(),
                context: context.deep_view(),
            },
        }
    }
}

/// How far a plan is carried out: what is to be done next, or what the hook
/// prints, if anything.
#[verifier::ext_equal]
pub ghost enum HookRun {
    Ask(HookRequestView),
    Done(Option<Seq<char>>),
}

/// How far a plan is carried out.
#[derive(Debug)]
pub enum HookStep<'a> {
    Ask(HookRequest<'a>),
    Done(Option<String>),
}

impl<'a> HookStep<'a> {
    /// The contents of a step.
    pub open spec fn contents(self) -> HookRun {
        match self {
            HookStep::Ask(request) => HookRun::Ask(request.contents()),
            HookStep::Done(output) => HookRun::Done(output.deep_view()),
        }
    }
}

/// Whether the failure of an operation was to be noted already: the operation
/// failed before the last answer, which tells whether it was noted or not.
pub open spec fn noted(operation: OperationView, answers: Seq<AnswerView>) -> bool {
    answers.len() > 0 && run_operation(operation, answers.drop_last(), 0) is Failed
}

/// Carries out the check of a project.
pub open spec fn run_project(
    cwd: Seq<char>,
    session_id: Option<Seq<char>>,
    turn_id: Option<Seq<char>>,
    answers: Seq<AnswerView>,
) -> HookRun {
    if answers.len() == 0 {
        HookRun::Ask(HookRequestView::ReadTouched { session_id, turn_id })
    } else {
        match answers[0] {
            AnswerView::Lines(touched) => if touched.len() == 0 {
                HookRun::Done(None)
            } else if answers.len() == 1 {
                HookRun::Ask(HookRequestView::CheckProject { cwd, touched })
            } else {
                match answers[1] {
                    AnswerView::Diagnostics(diagnostics) => if diagnostics.len() == 0 {
                        HookRun::Done(None)
                    } else {
                        HookRun::Done(Some(project_output(diagnostics)))
                    },
                    _ => HookRun::Done(None),
                }
            },
            _ => HookRun::Done(None),
        }
    }
}

/// What the report of a check of edited files prints.
pub open spec fn edit_answer(answer: AnswerView) -> Option<Seq<char>> {
    match answer {
        AnswerView::Report(Some(findings)) => Some(
            edit_output(joined(report_lines(findings), "\n"@)),
        ),
        _ => None,
    }
}

/// Carries out a plan with the answers so far.
pub open spec fn run_plan(plan: PlanView, answers: Seq<AnswerView>) -> HookRun {
    match plan {
        PlanView::Ignore => HookRun::Done(None),
        PlanView::Enrich { prompt } => if answers.len() == 0 {
            HookRun::Ask(HookRequestView::Enrich { prompt })
        } else {
            match answers[0] {
                AnswerView::Context(Some(context)) => HookRun::Done(Some(prompt_output(context))),
                _ => HookRun::Done(None),
            }
        },
        PlanView::CheckProject { cwd, session_id, turn_id } => run_project(
            cwd,
            session_id,
            turn_id,
            answers,
        ),
        PlanView::CheckEdit { session_id, turn_id, cwd, paths } => if answers.len() == 0 {
            HookRun::Ask(HookRequestView::RecordTouched { session_id, turn_id, cwd, paths })
        } else if answers.len() == 1 {
            HookRun::Ask(HookRequestView::CheckFiles { paths })
        } else {
            HookRun::Done(edit_answer(answers[1]))
        },
        PlanView::Execute { command, operation, context } => match run_operation(
            operation,
            answers,
            0,
        ) {
            OperationRun::Ask(request) => HookRun::Ask(HookRequestView::Run(request)),
            OperationRun::Done(result, _) => HookRun::Done(Some(fast_output(result))),
            OperationRun::Failed(message) => if noted(operation, answers) {
                HookRun::Done(None)
            } else {
                HookRun::Ask(
                    HookRequestView::Log {
                        command,
                        detail: failure_detail(command, operation, message),
                        context,
                    },
                )
            },
        },
        PlanView::LogUnknown { command, detail, context } => if answers.len() == 0 {
            HookRun::Ask(HookRequestView::Log { command, detail, context })
        } else {
            HookRun::Done(None)
        },
    }
}

fn is_noted(operation: &FastOperation, answers: &Vec<Answer>) -> (r: bool)
    ensures
        r == noted(operation_view(*operation), answers.deep_view()),
{
    if answers.len() == 0 {
        return false;
    }
    let before = slice_subrange(answers.as_slice(), 0, answers.len() - 1);
    assert(before.deep_view() =~= answers.deep_view().drop_last());
    matches!(execute_operation(operation, before, 0), OperationStep::Failed(_))
}

fn copy_detail(detail: &UnknownCommand) -> (r: UnknownCommand)
    ensures
        r.deep_view() == detail.deep_view(),
{
    UnknownCommand {
        reason: detail.reason.clone(),
        first_command: clone_option(&detail.first_command),
        pipeline_commands: clone_texts(&detail.pipeline_commands),
        normalized_shape: detail.normalized_shape.clone(),
    }
}

fn project_step<'a>(
    cwd: &'a String,
    session_id: &'a Option<String>,
    turn_id: &'a Option<String>,
    answers: &'a Vec<Answer>,
) -> (r: HookStep<'a>)
    ensures
        r.contents() == run_project(
            cwd@,
            session_id.deep_view(),
            turn_id.deep_view(),
            answers.deep_view(),
        ),
{
    if answers.len() == 0 {
        return HookStep::Ask(
            HookRequest::ReadTouched {
                session_id: option_str(session_id),
                turn_id: option_str(turn_id),
            },
        );
    }
    assert(answers.deep_view()[0] == answers[0].deep_view());
    let touched = match &answers[0] {
        Answer::Lines(touched) => touched,
        _ => {
            return HookStep::Done(None);
        },
    };
    if touched.len() == 0 {
        return HookStep::Done(None);
    }
    if answers.len() == 1 {
        return HookStep::Ask(HookRequest::CheckProject { cwd: cwd.as_str(), touched });
    }
    assert(answers.deep_view()[1] == answers[1].deep_view());
    match &answers[1] {
        Answer::Diagnostics(diagnostics) => {
            if diagnostics.len() == 0 {
                return HookStep::Done(None);
            }
            let mut reason = owned("slowcatch_project_check v1 failed\n\n");
            reason.append(render_project_check_failures(diagnostics).as_str());
            HookStep::Done(Some(render_block(reason.as_str())))
        },
        _ => HookStep::Done(None),
    }
}

fn execution_step<'a>(
    command: &'a String,
    operation: &'a FastOperation,
    context: &'a HookLogContext,
    answers: &'a Vec<Answer>,
) -> (r: HookStep<'a>)
    ensures
        r.contents() == run_plan(
            PlanView::Execute {
                command: command@,
                operation: operation_view(*operation),
                context: context.deep_view(),
            },
            answers.deep_view(),
        ),
{
    match execute_operation(operation, answers.as_slice(), 0) {
        OperationStep::Ask(request) => HookStep::Ask(HookRequest::Run(request)),
        OperationStep::Done(result, _) => HookStep::Done(Some(render_fast_result(&result))),
        OperationStep::Failed(error) => {
            if is_noted(operation, answers) {
                HookStep::Done(None)
            } else {
                HookStep::Ask(
                    HookRequest::Log {
                        command: command.as_str(),
                        detail: fast_path_failure(command.as_str(), operation, &error),
                        context,
                    },
                )
            }
        },
    }
}

/// Carries out a plan with the answers so far.
pub fn hook_step<'a>(plan: &'a HookPlan, answers: &'a Vec<Answer>) -> (r: HookStep<'a>)
    ensures
        r.contents() == run_plan(plan.deep_view(), answers.deep_view()),
{
    let ghost view = answers.deep_view();
    match plan {
        HookPlan::Ignore => HookStep::Done(None),
        HookPlan::Enrich { prompt } => {
            if answers.len() == 0 {
                return HookStep::Ask(HookRequest::Enrich { prompt: prompt.as_str() });
            }
            assert(view[0] == answers[0].deep_view());
            match &answers[0] {
                Answer::Context(Some(context)) => HookStep::Done(
                    Some(render_prompt_context(context.as_str())),
                ),
                _ => HookStep::Done(None),
            }
        },
        HookPlan::CheckProject { cwd, session_id, turn_id } => project_step(
            cwd,
            session_id,
            turn_id,
            answers,
        ),
        HookPlan::CheckEdit { session_id, turn_id, cwd, paths } => {
            if answers.len() == 0 {
                return HookStep::Ask(
                    HookRequest::RecordTouched {
                        session_id: option_str(session_id),
                        turn_id: option_str(turn_id),
                        cwd: option_str(cwd),
                        paths,
                    },
                );
            }
            if answers.len() == 1 {
                return HookStep::Ask(HookRequest::CheckFiles { paths });
            }
            assert(view[1] == answers[1].deep_view());
            match &answers[1] {
                Answer::Report(Some(report)) => HookStep::Done(
                    Some(render_edit_report(report.render().as_str())),
                ),
                _ => HookStep::Done(None),
            }
        },
        HookPlan::Execute { command, operation, context } => execution_step(
            command,
            operation,
            context,
            answers,
        ),
        HookPlan::LogUnknown { command, detail, context } => {
            if answers.len() == 0 {
                HookStep::Ask(
                    HookRequest::Log {
                        command: command.as_str(),
                        detail: copy_detail(detail),
                        context,
                    },
                )
            } else {
                HookStep::Done(None)
            }
        },
    }
}

// Laws.

/// A command that is not understood is never stopped, whatever the answers:
/// the hook prints nothing.
pub proof fn law_not_understood_passes(
    input: InputView,
    paths: Option<Seq<Seq<char>>>,
    answers: Seq<AnswerView>,
)
    requires
        input.precedes_shell(),
        input.command() matches Some(command) ==> !(decision_of(command, input.cwd) is Fast),
    ensures
        run_plan(plan_of(input, paths), answers) matches HookRun::Done(output) ==> output is None,
{
    reveal_strlit("PreToolUse");
    reveal_strlit("UserPromptSubmit");
    reveal_strlit("Stop");
    reveal_strlit("PostToolUse");
    assert("PreToolUse"@.len() != "UserPromptSubmit"@.len());
    assert("PreToolUse"@.len() != "Stop"@.len());
    assert("PreToolUse"@.len() != "PostToolUse"@.len());
}

/// The end of a turn is stopped only where a check of the project failed.
pub proof fn law_turn_stops_on_failures(
    cwd: Seq<char>,
    session_id: Option<Seq<char>>,
    turn_id: Option<Seq<char>>,
    answers: Seq<AnswerView>,
)
    ensures
        run_plan(PlanView::CheckProject { cwd, session_id, turn_id }, answers) matches HookRun::Done(
            Some(output),
        ) ==> answers.len() >= 2 && (answers[1] matches AnswerView::Diagnostics(diagnostics)
            && diagnostics.len() > 0 && output == project_output(diagnostics)),
{
}

/// An edit is stopped only where something is wrong with the edited files.
pub proof fn law_edit_stops_on_findings(
    session_id: Option<Seq<char>>,
    turn_id: Option<Seq<char>>,
    cwd: Option<Seq<char>>,
    paths: Seq<Seq<char>>,
    answers: Seq<AnswerView>,
)
    ensures
        run_plan(PlanView::CheckEdit { session_id, turn_id, cwd, paths }, answers)
            matches HookRun::Done(Some(_)) ==> answers.len() >= 2 && (
        answers[1] matches AnswerView::Report(report) && report is Some),
{
}

/// A command whose operation fails is never stopped: what failed is to be
/// noted, and whatever the answer to that is, the hook prints nothing.
pub proof fn law_failure_passes(
    command: Seq<char>,
    operation: OperationView,
    context: ContextView,
    answers: Seq<AnswerView>,
    reply: AnswerView,
)
    requires
        run_operation(operation, answers, 0) is Failed,
    ensures
        ({
            let run = run_plan(PlanView::Execute { command, operation, context }, answers);
            &&& run matches HookRun::Done(output) ==> output is None
            &&& run matches HookRun::Ask(request) ==> request is Log
            &&& run_plan(
                PlanView::Execute { command, operation, context },
                answers.push(reply),
            ) == HookRun::Done(None)
        }),
{
    let more = seq![reply];
    law_settled(operation, answers, more, 0);
    assert(answers + more =~= answers.push(reply));
    assert(answers.push(reply).drop_last() =~= answers);
}

/// A command is stopped only with the result of its operation.
pub proof fn law_stopped_with_result(
    command: Seq<char>,
    operation: OperationView,
    context: ContextView,
    answers: Seq<AnswerView>,
)
    ensures
        run_plan(PlanView::Execute { command, operation, context }, answers) matches HookRun::Done(
            Some(output),
        ) ==> run_operation(operation, answers, 0) is Done && output == fast_output(
            run_operation(operation, answers, 0)->Done_0,
        ),
{
}

/// No program is asked for but those that are allowed, whatever the plan and
/// the answers.
pub proof fn law_hook_asks_are_allowed(plan: PlanView, answers: Seq<AnswerView>)
    ensures
        run_plan(plan, answers) matches HookRun::Ask(HookRequestView::Run(request))
            ==> askable(request),
{
    if let PlanView::Execute { operation, .. } = plan {
        law_asks_are_allowed(operation, answers, 0);
    }
}

/// A plan that is carried out stays so: more answers do not change what the
/// hook prints.
pub proof fn law_hook_settled(plan: PlanView, answers: Seq<AnswerView>, more: Seq<AnswerView>)
    requires
        run_plan(plan, answers) is Done,
    ensures
        run_plan(plan, answers + more) == run_plan(plan, answers),
{
    let all = answers + more;
    match plan {
        PlanView::Execute { operation, .. } => {
            law_settled(operation, answers, more, 0);
            if noted(operation, answers) && more.len() > 0 {
                law_settled(operation, answers, more.drop_last(), 0);
                assert(all.drop_last() =~= answers + more.drop_last());
            } else {
                assert(more.len() == 0 ==> all =~= answers);
            }
        },
        _ => {
            if answers.len() > 0 {
                assert(all[0] == answers[0]);
            }
            if answers.len() > 1 {
                assert(all[1] == answers[1]);
            }
        },
    }
}

/// How many things a plan may ask to be done.
pub open spec fn plan_questions(plan: PlanView) -> nat {
    match plan {
        PlanView::Ignore => 0,
        PlanView::Enrich { .. } => 1,
        PlanView::CheckProject { .. } => 2,
        PlanView::CheckEdit { .. } => 2,
        PlanView::Execute { operation, .. } => operation_questions(operation) + 1,
        PlanView::LogUnknown { .. } => 1,
    }
}

/// A plan asks for no more than a fixed number of things, whatever the
/// answers are.
pub proof fn law_hook_ends(plan: PlanView, answers: Seq<AnswerView>)
    ensures
        run_plan(plan, answers) is Ask ==> answers.len() < plan_questions(plan),
{
    if let PlanView::Execute { operation, .. } = plan {
        law_questions_are_bounded(operation, answers, 0);
        if answers.len() > 0 {
            let before = answers.drop_last();
            law_questions_are_bounded(operation, before, 0);
            law_settled(operation, before, seq![answers.last()], 0);
            assert(before + seq![answers.last()] =~= answers);
        }
    }
}

} // verus!
