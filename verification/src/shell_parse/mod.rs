//! Reading PowerShell commands.
#![verifier::loop_isolation(false)]

pub mod arguments;
pub mod classify;
pub mod classify_laws;
pub mod commands;
pub mod content;
pub mod filters;
pub mod laws;
pub mod listing_laws;
pub mod mini;
pub mod mini_laws;
pub mod operation;
pub mod pipeline_laws;
pub mod reading_laws;
pub mod script_laws;
pub mod words;

pub use classify::{ParseDecision, PassThroughReason, UnknownCommand};
pub use operation::{
    FastOperation, FastSegment, MiniBranch, MiniCondition, MiniScript, ReadWindow, TestPathType,
};

use crate::text::{trim, trimmed};
use classify::{
    command_list_of, decide_command, decision, dynamic, has_dynamic_or_unsafe_constructs,
    is_valid_powershell_ast, parse_command_list, refuse_early, refuse_single, valid_powershell,
    DecisionView,
};
use commands::view_of;
use mini::{parse_mini_script, script_of};
use operation::OperationView;
use vstd::prelude::*;
use vstd::string::*;

verus! {

/// The decision on a command.
pub open spec fn decision_of(command: Seq<char>, cwd: Option<Seq<char>>) -> DecisionView {
    if dynamic(command) {
        DecisionView::PassThrough(PassThroughReason::DynamicOrUnsafe)
    } else {
        let command = trimmed(command);
        let valid = valid_powershell(command);
        decision(command, cwd, command_list_of(command, cwd), script_of(command, cwd, valid), valid)
    }
}

/// The operation of a fast decision.
pub open spec fn fast_of(decision: DecisionView) -> Option<OperationView> {
    match decision {
        DecisionView::Fast(operation) => Some(operation),
        _ => None,
    }
}

/// Decides what to do with a command.
pub fn classify_powershell(command: &str, cwd: Option<&str>) -> (r: ParseDecision)
    ensures
        r.deep_view() == decision_of(command@, cwd.deep_view()),
{
    if has_dynamic_or_unsafe_constructs(command) {
        return ParseDecision::PassThrough(PassThroughReason::DynamicOrUnsafe);
    }
    let command = trim(command);
    let c = command.as_str();
    if c.unicode_len() == 0 || refuse_early(c).is_some() {
        return decide_command(c, cwd, None, None, false);
    }
    let list = parse_command_list(c, cwd);
    if list.is_some() || refuse_single(c).is_some() {
        return decide_command(c, cwd, list, None, false);
    }
    let script = parse_mini_script(c, cwd);
    let valid = script.is_none() && is_valid_powershell_ast(c);
    decide_command(c, cwd, list, script, valid)
}

/// The operation that is run in place of a command, if it is understood.
pub fn parse_powershell(command: &str, cwd: Option<&str>) -> (r: Option<FastOperation>)
    ensures
        view_of(r) == fast_of(decision_of(command@, cwd.deep_view())),
{
    match classify_powershell(command, cwd) {
        ParseDecision::Fast(operation) => Some(operation),
        ParseDecision::PassThrough(_) | ParseDecision::UnknownCandidate(_) => None,
    }
}

} // verus!
