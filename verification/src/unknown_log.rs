//! The log of commands that were not taken over.
#![verifier::loop_isolation(false)]

use crate::shell_parse::classify::UnknownView;
use crate::shell_parse::UnknownCommand;
use crate::text::{clone_option, clone_texts, owned};
use vstd::prelude::*;

verus! {

/// Where a command came from.
#[derive(Debug, Clone, PartialEq, Eq)]
pub struct HookLogContext {
    pub session_id: Option<String>,
    pub turn_id: Option<String>,
    pub model: Option<String>,
    pub cwd: Option<String>,
}

/// The contents of where a command came from.
#[verifier::ext_equal]
pub ghost struct ContextView {
    pub session_id: Option<Seq<char>>,
    pub turn_id: Option<Seq<char>>,
    pub model: Option<Seq<char>>,
    pub cwd: Option<Seq<char>>,
}

impl DeepView for HookLogContext {
    type V = ContextView;

    open spec fn deep_view(&self) -> ContextView {
        ContextView {
            session_id: self.session_id.deep_view(),
            turn_id: self.turn_id.deep_view(),
            model: self.model.deep_view(),
            cwd: self.cwd.deep_view(),
        }
    }
}

/// A line of the log.
#[derive(Debug, Clone, PartialEq, Eq)]
pub struct UnknownLogEntry {
    pub timestamp_unix_ms: u128,
    pub source: &'static str,
    pub reason: String,
    pub first_command: Option<String>,
    pub pipeline_commands: Vec<String>,
    pub normalized_shape: String,
    pub command: String,
    pub cwd: Option<String>,
    pub session_id: Option<String>,
    pub turn_id: Option<String>,
    pub model: Option<String>,
}

/// The contents of a line of the log.
#[verifier::ext_equal]
pub ghost struct LogEntryView {
    pub timestamp_unix_ms: u128,
    pub source: Seq<char>,
    pub detail: UnknownView,
    pub command: Seq<char>,
    pub context: ContextView,
}

impl DeepView for UnknownLogEntry {
    type V = LogEntryView;

    open spec fn deep_view(&self) -> LogEntryView {
        LogEntryView {
            timestamp_unix_ms: self.timestamp_unix_ms,
            source: self.source@,
            detail: UnknownView {
                reason: self.reason@,
                first_command: self.first_command.deep_view(),
                pipeline_commands: self.pipeline_commands.deep_view(),
                normalized_shape: self.normalized_shape@,
            },
            command: self.command@,
            context: ContextView {
                session_id: self.session_id.deep_view(),
                turn_id: self.turn_id.deep_view(),
                model: self.model.deep_view(),
                cwd: self.cwd.deep_view(),
            },
        }
    }
}

/// The line of the log for a command, at the given time.
pub fn unknown_log_entry(
    command: &str,
    detail: &UnknownCommand,
    context: &HookLogContext,
    timestamp_unix_ms: u128,
) -> (r: UnknownLogEntry)
    ensures
        r.deep_view() == (LogEntryView {
            timestamp_unix_ms,
            source: "codex_hook"@,
            detail: detail.deep_view(),
            command: command@,
            context: context.deep_view(),
        }),
{
    UnknownLogEntry {
        timestamp_unix_ms,
        source: "codex_hook",
        reason: detail.reason.clone(),
        first_command: clone_option(&detail.first_command),
        pipeline_commands: clone_texts(&detail.pipeline_commands),
        normalized_shape: detail.normalized_shape.clone(),
        command: owned(command),
        cwd: clone_option(&context.cwd),
        session_id: clone_option(&context.session_id),
        turn_id: clone_option(&context.turn_id),
        model: clone_option(&context.model),
    }
}

} // verus!
