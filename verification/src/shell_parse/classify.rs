//! What to do with a command: run a fast operation in its place, leave it to
//! the shell, or note it as one that might be understood one day.
#![verifier::loop_isolation(false)]

use super::commands::{
    bounded_read_of, content_search_of, directory_pipeline_of, external_of, find_measure_of,
    find_of, find_pipeline_of, find_projection_of, inspect_of, listing_of,
    parse_directory_pipeline, parse_find_measure, parse_find_pipeline, parse_find_projection,
    parse_get_child_item_find, parse_get_child_item_list, parse_get_content_bounded,
    parse_get_content_inspect, parse_get_content_select_string, parse_get_content_slice,
    parse_readonly_external, parse_select_string, search_of, slice_of, view_of,
};
use super::operation::{
    operation_view, segment_view, segments_view, FastOperation, FastSegment, OperationView,
    SegmentView,
};
use super::words::{
    command_name, normalize_command_name, parts_of, split_command_list, split_pipeline,
    stands_unquoted, tokenize, tokens_of, unquoted,
};
use crate::case::{lowered, to_lowercase};
use crate::number::{parse_usize, read_unsigned};
use crate::split::{join, joined};
use crate::syntax::{parse_nodes, parsed_nodes, Grammar};
use crate::text::{
    contains, contains_char, ends_with, has_suffix, has_text, option_str, owned, push_item, same,
    starts_char, starts_with_char, trim, trimmed,
};
use vstd::prelude::*;
use vstd::string::*;

verus! {

/// Why a command is left to the shell.
#[derive(Debug, Clone, Copy, PartialEq, Eq, Structural)]
pub enum PassThroughReason {
    DynamicOrUnsafe,
    Mutating,
    ExternalProgram,
    InvalidPowerShell,
    NotAFileCommand,
}

/// A command that might be understood one day.
#[derive(Debug, Clone, PartialEq, Eq)]
pub struct UnknownCommand {
    pub reason: String,
    pub first_command: Option<String>,
    pub pipeline_commands: Vec<String>,
    pub normalized_shape: String,
}

/// The contents of a command that is not understood.
#[verifier::ext_equal]
pub ghost struct UnknownView {
    pub reason: Seq<char>,
    pub first_command: Option<Seq<char>>,
    pub pipeline_commands: Seq<Seq<char>>,
    pub normalized_shape: Seq<char>,
}

impl DeepView for UnknownCommand {
    type V = UnknownView;

    open spec fn deep_view(&self) -> UnknownView {
        UnknownView {
            reason: self.reason@,
            first_command: self.first_command.deep_view(),
            pipeline_commands: self.pipeline_commands.deep_view(),
            normalized_shape: self.normalized_shape@,
        }
    }
}

/// What to do with a command.
#[derive(Debug, PartialEq, Eq)]
pub enum ParseDecision {
    Fast(FastOperation),
    PassThrough(PassThroughReason),
    UnknownCandidate(UnknownCommand),
}

/// The contents of a decision.
#[verifier::ext_equal]
pub ghost enum DecisionView {
    Fast(OperationView),
    PassThrough(PassThroughReason),
    UnknownCandidate(UnknownView),
}

impl DeepView for ParseDecision {
    type V = DecisionView;

    open spec fn deep_view(&self) -> DecisionView {
        match self {
            ParseDecision::Fast(operation) => DecisionView::Fast(operation_view(*operation)),
            ParseDecision::PassThrough(reason) => DecisionView::PassThrough(*reason),
            ParseDecision::UnknownCandidate(detail) => DecisionView::UnknownCandidate(
                detail.deep_view(),
            ),
        }
    }
}

// Kinds of commands.

/// Whether a command computes what it runs.
pub open spec fn dynamic(command: Seq<char>) -> bool {
    let lower = lowered(command);
    ||| has_text(command, "$("@)
    ||| command.contains('`')
    ||| has_text(lower, "invoke-expression"@)
    ||| has_text(lower, "iex"@)
}

/// Whether a command computes what it runs.
pub fn has_dynamic_or_unsafe_constructs(command: &str) -> (r: bool)
    ensures
        r == dynamic(command@),
{
    if contains(command, "$(") || contains_char(command, '`') {
        return true;
    }
    let lower = to_lowercase(command);
    let l = lower.as_str();
    contains(l, "invoke-expression") || contains(l, "iex")
}

/// The names of commands that change something.
pub open spec fn changes(name: Seq<char>) -> bool {
    ||| name == "remove-item"@
    ||| name == "rm"@
    ||| name == "rmdir"@
    ||| name == "del"@
    ||| name == "erase"@
    ||| name == "move-item"@
    ||| name == "mv"@
    ||| name == "set-content"@
    ||| name == "sc"@
    ||| name == "new-item"@
    ||| name == "ni"@
    ||| name == "copy-item"@
    ||| name == "cp"@
    ||| name == "copy"@
    ||| name == "rename-item"@
    ||| name == "ren"@
    ||| name == "clear-content"@
    ||| name == "clc"@
    ||| name == "out-file"@
}

/// Whether a command changes something: it redirects its output, or its name
/// says so.
pub open spec fn mutating(command: Seq<char>, first: Option<Seq<char>>) -> bool {
    command.contains('>') || (first matches Some(name) && changes(name))
}

fn is_change(c: &str) -> (r: bool)
    ensures
        r == changes(c@),
{
    same(c, "remove-item") || same(c, "rm") || same(c, "rmdir") || same(c, "del") || same(
        c,
        "erase",
    ) || same(c, "move-item") || same(c, "mv") || same(c, "set-content") || same(c, "sc") || same(
        c,
        "new-item",
    ) || same(c, "ni") || same(c, "copy-item") || same(c, "cp") || same(c, "copy") || same(
        c,
        "rename-item",
    ) || same(c, "ren") || same(c, "clear-content") || same(c, "clc") || same(c, "out-file")
}

/// Whether a command changes something.
pub fn is_mutating_command(command: &str, first_command: Option<&str>) -> (r: bool)
    ensures
        r == mutating(command@, first_command.deep_view()),
{
    if contains_char(command, '>') {
        return true;
    }
    match first_command {
        Some(name) => is_change(name),
        None => false,
    }
}

/// The names of programs outside the shell.
pub open spec fn is_program(name: Seq<char>) -> bool {
    ||| name == "git"@
    ||| name == "cargo"@
    ||| name == "rg"@
    ||| name == "fd"@
    ||| name == "node"@
    ||| name == "python"@
    ||| name == "python3"@
    ||| name == "py"@
    ||| name == "pwsh"@
    ||| name == "powershell"@
    ||| name == "cmd"@
    ||| name == "docker"@
    ||| name == "npm"@
    ||| name == "pnpm"@
    ||| name == "bun"@
    ||| name == "uv"@
    ||| has_suffix(name, ".exe"@)
    ||| has_suffix(name, ".cmd"@)
    ||| has_suffix(name, ".bat"@)
    ||| has_suffix(name, ".ps1"@)
    ||| name.contains('\\')
    ||| name.contains('/')
    ||| starts_char(name, '.')
}

/// Whether a name is that of a program outside the shell.
pub fn is_external_program_command(c: &str) -> (r: bool)
    ensures
        r == is_program(c@),
{
    same(c, "git") || same(c, "cargo") || same(c, "rg") || same(c, "fd") || same(c, "node") || same(
        c,
        "python",
    ) || same(c, "python3") || same(c, "py") || same(c, "pwsh") || same(c, "powershell") || same(
        c,
        "cmd",
    ) || same(c, "docker") || same(c, "npm") || same(c, "pnpm") || same(c, "bun") || same(c, "uv")
        || ends_with(c, ".exe") || ends_with(c, ".cmd") || ends_with(c, ".bat") || ends_with(
        c,
        ".ps1",
    ) || contains_char(c, '\\') || contains_char(c, '/') || starts_with_char(c, '.')
}

/// The names of commands that list, read, search or work on lists of files.
pub open spec fn interesting(name: Seq<char>) -> bool {
    ||| name == "get-childitem"@
    ||| name == "gci"@
    ||| name == "dir"@
    ||| name == "ls"@
    ||| name == "get-content"@
    ||| name == "gc"@
    ||| name == "cat"@
    ||| name == "type"@
    ||| name == "select-string"@
    ||| name == "sls"@
    ||| name == "select-object"@
    ||| name == "select"@
    ||| name == "where-object"@
    ||| name == "where"@
    ||| name == "?"@
    ||| name == "sort-object"@
    ||| name == "sort"@
    ||| name == "measure-object"@
    ||| name == "measure"@
}

/// Whether a name is that of a command that lists, reads, searches or works
/// on lists of files.
pub fn is_interesting_file_command(c: &str) -> (r: bool)
    ensures
        r == interesting(c@),
{
    same(c, "get-childitem") || same(c, "gci") || same(c, "dir") || same(c, "ls") || same(
        c,
        "get-content",
    ) || same(c, "gc") || same(c, "cat") || same(c, "type") || same(c, "select-string") || same(
        c,
        "sls",
    ) || same(c, "select-object") || same(c, "select") || same(c, "where-object") || same(
        c,
        "where",
    ) || same(c, "?") || same(c, "sort-object") || same(c, "sort") || same(c, "measure-object")
        || same(c, "measure")
}

/// Whether a command is valid PowerShell: it has a tree, whose root holds no
/// error.
pub open spec fn valid_powershell(command: Seq<char>) -> bool {
    parsed_nodes(Grammar::PowerShell, command) matches Some(nodes) && nodes.len() > 0
        && !nodes[0].has_error
}

/// Whether a command is valid PowerShell.
pub fn is_valid_powershell_ast(command: &str) -> (r: bool)
    ensures
        r == valid_powershell(command@),
{
    match parse_nodes(Grammar::PowerShell, command) {
        Some(nodes) => {
            if nodes.len() > 0 {
                assert(nodes.deep_view()[0] == nodes[0].deep_view());
                !nodes[0].has_error
            } else {
                false
            }
        },
        None => false,
    }
}

// Commands that are not understood.

/// The parts of a pipeline, or the whole where it has an empty part.
pub open spec fn parts_or_whole(command: Seq<char>) -> Seq<Seq<char>> {
    match parts_of(command, '|') {
        Some(parts) => parts,
        None => seq![command],
    }
}

fn pipeline_or_whole(command: &str) -> (r: Vec<String>)
    ensures
        r.deep_view() == parts_or_whole(command@),
{
    match split_pipeline(command) {
        Some(parts) => parts,
        None => {
            let mut parts: Vec<String> = Vec::new();
            push_item(&mut parts, owned(command));
            assert(parts.deep_view() =~= seq![command@]);
            parts
        },
    }
}

/// The names of the commands of the parts that have words.
pub open spec fn names_of(parts: Seq<Seq<char>>) -> Seq<Seq<char>>
    decreases parts.len(),
{
    if parts.len() == 0 {
        Seq::empty()
    } else {
        let before = names_of(parts.drop_last());
        match tokens_of(parts.last()) {
            Some(tokens) => before.push(command_name(tokens[0])),
            None => before,
        }
    }
}

/// The names of the commands of a pipeline.
pub open spec fn pipeline_names(command: Seq<char>) -> Seq<Seq<char>> {
    names_of(parts_or_whole(command))
}

/// The names of the commands of a pipeline.
pub fn pipeline_command_names(command: &str) -> (r: Vec<String>)
    ensures
        r.deep_view() == pipeline_names(command@),
{
    let parts = pipeline_or_whole(command);
    let ghost view = parts.deep_view();
    let mut names: Vec<String> = Vec::new();
    let mut i: usize = 0;
    assert(names.deep_view() =~= names_of(view.take(0)));
    while i < parts.len()
        invariant
            i <= parts.len(),
            names.deep_view() == names_of(view.take(i as int)),
        decreases parts.len() - i,
    {
        proof {
            assert(view.take(i + 1).drop_last() =~= view.take(i as int));
            assert(view.take(i + 1).last() == parts[i as int]@);
        }
        if let Some(tokens) = tokenize(parts[i].as_str()) {
            assert(tokens.deep_view()[0] == tokens[0]@);
            push_item(&mut names, normalize_command_name(tokens[0].as_str()));
        }
        i += 1;
    }
    assert(view.take(i as int) =~= view);
    names
}

/// What is kept of a word: the names of options, of commands that work on
/// files and of programs; else only whether it is a number.
pub open spec fn shape_word(token: Seq<char>) -> Seq<char> {
    let name = command_name(token);
    if starts_char(name, '-') || interesting(name) || is_program(name) {
        name
    } else if read_unsigned(token) is Some {
        "<number>"@
    } else {
        "<arg>"@
    }
}

/// The shapes of the words of a part.
pub open spec fn part_shape(tokens: Seq<Seq<char>>) -> Seq<char> {
    joined(tokens.map_values(|t: Seq<char>| shape_word(t)), " "@)
}

/// The shapes of the parts that have words.
pub open spec fn shapes_of(parts: Seq<Seq<char>>) -> Seq<Seq<char>>
    decreases parts.len(),
{
    if parts.len() == 0 {
        Seq::empty()
    } else {
        let before = shapes_of(parts.drop_last());
        match tokens_of(parts.last()) {
            Some(tokens) => before.push(part_shape(tokens)),
            None => before,
        }
    }
}

/// The shape of a command: its words without what they name.
pub open spec fn shape_of(command: Seq<char>) -> Seq<char> {
    joined(shapes_of(parts_or_whole(command)), " | "@)
}

fn shape_for(token: &str) -> (r: String)
    ensures
        r@ == shape_word(token@),
{
    let name = normalize_command_name(token);
    if starts_with_char(name.as_str(), '-') || is_interesting_file_command(name.as_str())
        || is_external_program_command(name.as_str()) {
        name
    } else if parse_usize(token).is_some() {
        owned("<number>")
    } else {
        owned("<arg>")
    }
}

fn shape_for_part(tokens: &Vec<String>) -> (r: String)
    ensures
        r@ == part_shape(tokens.deep_view()),
{
    let ghost view = tokens.deep_view();
    let ghost shapes = view.map_values(|t: Seq<char>| shape_word(t));
    let mut words: Vec<String> = Vec::new();
    let mut i: usize = 0;
    assert(words.deep_view() =~= shapes.take(0));
    while i < tokens.len()
        invariant
            i <= tokens.len(),
            words.deep_view() == shapes.take(i as int),
        decreases tokens.len() - i,
    {
        assert(view[i as int] == tokens[i as int]@);
        push_item(&mut words, shape_for(tokens[i].as_str()));
        i += 1;
        assert(words.deep_view() =~= shapes.take(i as int));
    }
    assert(shapes.take(i as int) =~= shapes);
    join(&words, " ")
}

/// The shape of a command.
pub fn normalized_shape(command: &str) -> (r: String)
    ensures
        r@ == shape_of(command@),
{
    let parts = pipeline_or_whole(command);
    let ghost view = parts.deep_view();
    let mut shapes: Vec<String> = Vec::new();
    let mut i: usize = 0;
    assert(shapes.deep_view() =~= shapes_of(view.take(0)));
    while i < parts.len()
        invariant
            i <= parts.len(),
            shapes.deep_view() == shapes_of(view.take(i as int)),
        decreases parts.len() - i,
    {
        proof {
            assert(view.take(i + 1).drop_last() =~= view.take(i as int));
            assert(view.take(i + 1).last() == parts[i as int]@);
        }
        if let Some(tokens) = tokenize(parts[i].as_str()) {
            push_item(&mut shapes, shape_for_part(&tokens));
        }
        i += 1;
    }
    assert(view.take(i as int) =~= view);
    join(&shapes, " | ")
}

/// The name in the first word of a command, if it has words.
pub open spec fn first_name(command: Seq<char>) -> Option<Seq<char>> {
    match tokens_of(command) {
        Some(tokens) => Some(command_name(tokens[0])),
        None => None,
    }
}

/// What is noted of a command that is not understood.
pub open spec fn unknown_of(command: Seq<char>, reason: Seq<char>) -> UnknownView {
    let names = pipeline_names(command);
    UnknownView {
        reason,
        first_command: if names.len() > 0 {
            Some(names[0])
        } else {
            first_name(command)
        },
        pipeline_commands: names,
        normalized_shape: shape_of(command),
    }
}

fn first_command_name(command: &str) -> (r: Option<String>)
    ensures
        r.deep_view() == first_name(command@),
{
    match tokenize(command) {
        Some(tokens) => {
            assert(tokens.deep_view()[0] == tokens[0]@);
            Some(normalize_command_name(tokens[0].as_str()))
        },
        None => None,
    }
}

/// What is noted of a command that is not understood.
pub fn unknown_candidate(command: &str, reason: &str) -> (r: UnknownCommand)
    ensures
        r.deep_view() == unknown_of(command@, reason@),
{
    let pipeline_commands = pipeline_command_names(command);
    let first_command = if pipeline_commands.len() > 0 {
        assert(pipeline_commands.deep_view()[0] == pipeline_commands[0]@);
        Some(pipeline_commands[0].clone())
    } else {
        first_command_name(command)
    };
    UnknownCommand {
        reason: owned(reason),
        first_command,
        pipeline_commands,
        normalized_shape: normalized_shape(command),
    }
}

/// Whether some name is that of a command that works on files.
pub open spec fn any_interesting(names: Seq<Seq<char>>) -> bool {
    exists|i: int| 0 <= i < names.len() && interesting(#[trigger] names[i])
}

/// Whether a command works on files somewhere.
pub open spec fn unknown_worthy(command: Seq<char>, first: Option<Seq<char>>) -> bool {
    (first matches Some(name) && interesting(name)) || any_interesting(pipeline_names(command))
}

/// Whether a command works on files somewhere.
pub fn is_unknown_candidate(command: &str, first_command: Option<&str>) -> (r: bool)
    ensures
        r == unknown_worthy(command@, first_command.deep_view()),
{
    if let Some(name) = first_command {
        if is_interesting_file_command(name) {
            return true;
        }
    }
    let names = pipeline_command_names(command);
    let ghost view = names.deep_view();
    let mut i: usize = 0;
    while i < names.len()
        invariant
            i <= names.len(),
            forall|j: int| 0 <= j < i ==> !interesting(#[trigger] view[j]),
        decreases names.len() - i,
    {
        assert(view[i as int] == names[i as int]@);
        if is_interesting_file_command(names[i].as_str()) {
            assert(interesting(view[i as int]));
            return true;
        }
        i += 1;
    }
    false
}

// One command.

/// The first of two readings that there is.
pub open spec fn either(a: Option<OperationView>, b: Option<OperationView>) -> Option<
    OperationView,
> {
    if a is Some {
        a
    } else {
        b
    }
}

/// The operation for one command of a list: the first reading that fits.
pub open spec fn single_operation(command: Seq<char>, cwd: Option<Seq<char>>) -> Option<
    OperationView,
> {
    either(
        slice_of(command),
        either(
            content_search_of(command),
            either(
                find_projection_of(command, cwd),
                either(
                    find_pipeline_of(command, cwd),
                    either(
                        find_measure_of(command, cwd),
                        either(
                            directory_pipeline_of(command, cwd),
                            either(
                                listing_of(command, cwd, true),
                                either(
                                    search_of(command, cwd),
                                    either(
                                        inspect_of(command),
                                        either(bounded_read_of(command), find_of(command, cwd)),
                                    ),
                                ),
                            ),
                        ),
                    ),
                ),
            ),
        ),
    )
}

fn read_single_operation(command: &str, cwd: Option<&str>) -> (r: Option<FastOperation>)
    ensures
        view_of(r) == single_operation(command@, cwd.deep_view()),
{
    let operation = parse_get_content_slice(command);
    if operation.is_some() {
        return operation;
    }
    let operation = parse_get_content_select_string(command);
    if operation.is_some() {
        return operation;
    }
    let operation = parse_find_projection(command, cwd);
    if operation.is_some() {
        return operation;
    }
    let operation = parse_find_pipeline(command, cwd);
    if operation.is_some() {
        return operation;
    }
    let operation = parse_find_measure(command, cwd);
    if operation.is_some() {
        return operation;
    }
    let operation = parse_directory_pipeline(command, cwd);
    if operation.is_some() {
        return operation;
    }
    let operation = parse_get_child_item_list(command, cwd, true);
    if operation.is_some() {
        return operation;
    }
    let operation = parse_select_string(command, cwd);
    if operation.is_some() {
        return operation;
    }
    let operation = parse_get_content_inspect(command);
    if operation.is_some() {
        return operation;
    }
    let operation = parse_get_content_bounded(command);
    if operation.is_some() {
        return operation;
    }
    parse_get_child_item_find(command, cwd)
}

/// The decision on one command of a list, given whether it is valid
/// PowerShell.
pub open spec fn single_decision(
    command: Seq<char>,
    cwd: Option<Seq<char>>,
    valid: bool,
) -> DecisionView {
    if dynamic(command) {
        DecisionView::PassThrough(PassThroughReason::DynamicOrUnsafe)
    } else if !valid {
        DecisionView::UnknownCandidate(
            unknown_of(command, "invalid_or_unsupported_powershell_shape"@),
        )
    } else {
        match single_operation(command, cwd) {
            Some(operation) => DecisionView::Fast(operation),
            None => DecisionView::UnknownCandidate(
                unknown_of(command, "unsupported_command_list_segment"@),
            ),
        }
    }
}

/// The decision on one command of a list, given whether it is valid
/// PowerShell.
pub fn decide_single_command(command: &str, cwd: Option<&str>, valid: bool) -> (r: ParseDecision)
    ensures
        r.deep_view() == single_decision(command@, cwd.deep_view(), valid),
{
    if has_dynamic_or_unsafe_constructs(command) {
        return ParseDecision::PassThrough(PassThroughReason::DynamicOrUnsafe);
    }
    if !valid {
        return ParseDecision::UnknownCandidate(
            unknown_candidate(command, "invalid_or_unsupported_powershell_shape"),
        );
    }
    match read_single_operation(command, cwd) {
        Some(operation) => ParseDecision::Fast(operation),
        None => ParseDecision::UnknownCandidate(
            unknown_candidate(command, "unsupported_command_list_segment"),
        ),
    }
}

/// The decision on one command of a list.
pub fn classify_single_command(command: &str, cwd: Option<&str>) -> (r: ParseDecision)
    ensures
        r.deep_view() == single_decision(
            trimmed(command@),
            cwd.deep_view(),
            valid_powershell(trimmed(command@)),
        ),
{
    let command = trim(command);
    let valid = is_valid_powershell_ast(command.as_str());
    decide_single_command(command.as_str(), cwd, valid)
}

// Lists of commands.

/// The step for one command of a list: a program call that is known to
/// change nothing, or a fast operation. A command that changes something has
/// none.
#[verifier::opaque]
pub open spec fn segment_of(part: Seq<char>, cwd: Option<Seq<char>>, valid: bool) -> Option<
    SegmentView,
> {
    if alters(part) {
        None
    } else {
        match external_of(part) {
            Some(external) => Some(SegmentView::ReadOnlyExternal(external)),
            None => match single_decision(trimmed(part), cwd, valid) {
                DecisionView::Fast(operation) => Some(SegmentView::Operation(Box::new(operation))),
                _ => None,
            },
        }
    }
}

/// Whether a command changes something for sure: it redirects its output
/// outside quotes, or its name says so.
pub open spec fn alters(command: Seq<char>) -> bool {
    unquoted(command, '>') || (first_name(command) matches Some(name) && changes(name))
}

fn changes_something(command: &str) -> (r: bool)
    ensures
        r == alters(command@),
{
    if stands_unquoted(command, '>') {
        return true;
    }
    match first_command_name(command) {
        Some(name) => is_change(name.as_str()),
        None => false,
    }
}

/// The contents of a step, if there is one.
pub open spec fn segment_view_of(segment: Option<FastSegment>) -> Option<SegmentView> {
    match segment {
        Some(segment) => Some(segment_view(segment)),
        None => None,
    }
}

/// The step for one command of a list, given whether the command without
/// surrounding white space is valid PowerShell.
pub fn decide_segment(part: &str, cwd: Option<&str>, valid: bool) -> (r: Option<FastSegment>)
    ensures
        segment_view_of(r) == segment_of(part@, cwd.deep_view(), valid),
{
    proof {
        reveal(segment_of);
    }
    if changes_something(part) {
        return None;
    }
    match parse_readonly_external(part) {
        Some(external) => Some(FastSegment::ReadOnlyExternal(external)),
        None => {
            let command = trim(part);
            match decide_single_command(command.as_str(), cwd, valid) {
                ParseDecision::Fast(operation) => Some(
                    FastSegment::Operation(Box::new(operation)),
                ),
                _ => None,
            }
        },
    }
}

/// The step for one command of a list.
pub fn read_segment(part: &str, cwd: Option<&str>) -> (r: Option<FastSegment>)
    ensures
        segment_view_of(r) == segment_of(
            part@,
            cwd.deep_view(),
            valid_powershell(trimmed(part@)),
        ),
{
    proof {
        reveal(segment_of);
    }
    if changes_something(part) {
        return None;
    }
    match parse_readonly_external(part) {
        Some(external) => Some(FastSegment::ReadOnlyExternal(external)),
        None => match classify_single_command(part, cwd) {
            ParseDecision::Fast(operation) => Some(FastSegment::Operation(Box::new(operation))),
            _ => None,
        },
    }
}

/// The steps for the commands of a list, each of which must have one.
pub open spec fn list_segments(parts: Seq<Seq<char>>, cwd: Option<Seq<char>>) -> Option<
    Seq<SegmentView>,
>
    decreases parts.len(),
{
    if parts.len() == 0 {
        Some(Seq::empty())
    } else {
        match list_segments(parts.drop_last(), cwd) {
            Some(before) => match segment_of(
                parts.last(),
                cwd,
                valid_powershell(trimmed(parts.last())),
            ) {
                Some(segment) => Some(before.push(segment)),
                None => None,
            },
            None => None,
        }
    }
}

proof fn lemma_segments_prefix(parts: Seq<Seq<char>>, cwd: Option<Seq<char>>, n: int)
    requires
        0 <= n <= parts.len(),
        list_segments(parts.take(n), cwd) is None,
    ensures
        list_segments(parts, cwd) is None,
    decreases parts.len() - n,
{
    if n < parts.len() {
        assert(parts.take(n + 1).drop_last() =~= parts.take(n));
        lemma_segments_prefix(parts, cwd, n + 1);
    } else {
        assert(parts.take(n) =~= parts);
    }
}

/// The operation for a list of at least two commands.
pub open spec fn command_list_of(command: Seq<char>, cwd: Option<Seq<char>>) -> Option<
    OperationView,
> {
    match parts_of(command, ';') {
        Some(parts) => if parts.len() > 1 {
            match list_segments(parts, cwd) {
                Some(segments) => Some(OperationView::CommandList(segments)),
                None => None,
            }
        } else {
            None
        },
        None => None,
    }
}

/// Appends a step to a list of steps.
pub fn push_segment(segments: &mut Vec<FastSegment>, segment: FastSegment)
    ensures
        segments_view(final(segments)@) == segments_view(old(segments)@).push(
            segment_view(segment),
        ),
        final(segments)@ == old(segments)@.push(segment),
{
    segments.push(segment);
    assert(segments_view(segments@) =~= segments_view(old(segments)@).push(segment_view(segment)));
}

/// The operation for a list of at least two commands.
pub fn parse_command_list(command: &str, cwd: Option<&str>) -> (r: Option<FastOperation>)
    ensures
        view_of(r) == command_list_of(command@, cwd.deep_view()),
{
    let parts = match split_command_list(command) {
        Some(parts) => parts,
        None => {
            return None;
        },
    };
    if parts.len() <= 1 {
        return None;
    }
    let ghost view = parts.deep_view();
    let mut segments: Vec<FastSegment> = Vec::new();
    let mut i: usize = 0;
    assert(segments_view(segments@) =~= Seq::<SegmentView>::empty());
    while i < parts.len()
        invariant
            i <= parts.len(),
            list_segments(view.take(i as int), cwd.deep_view()) == Some(segments_view(segments@)),
        decreases parts.len() - i,
    {
        proof {
            assert(view.take(i + 1).drop_last() =~= view.take(i as int));
            assert(view.take(i + 1).last() == parts[i as int]@);
        }
        match read_segment(parts[i].as_str(), cwd) {
            Some(segment) => {
                push_segment(&mut segments, segment);
            },
            None => {
                proof {
                    lemma_segments_prefix(view, cwd.deep_view(), i + 1);
                }
                return None;
            },
        }
        i += 1;
    }
    assert(view.take(i as int) =~= view);
    Some(FastOperation::CommandList(segments))
}

// Any command.

/// Whether a command is one command: no semicolon stands outside quotes.
pub open spec fn is_one(command: Seq<char>) -> bool {
    parts_of(command, ';') matches Some(parts) && parts.len() == 1
}

fn is_one_command(command: &str) -> (r: bool)
    ensures
        r == is_one(command@),
{
    match split_command_list(command) {
        Some(parts) => parts.len() == 1,
        None => false,
    }
}

/// The operation for a command that does not depend on its being valid.
pub open spec fn lenient_operation(command: Seq<char>, cwd: Option<Seq<char>>) -> Option<
    OperationView,
> {
    either(
        find_projection_of(command, cwd),
        either(
            find_pipeline_of(command, cwd),
            either(find_measure_of(command, cwd), directory_pipeline_of(command, cwd)),
        ),
    )
}

/// The operation for a command that must be valid.
pub open spec fn strict_operation(command: Seq<char>, cwd: Option<Seq<char>>) -> Option<
    OperationView,
> {
    either(
        slice_of(command),
        either(
            content_search_of(command),
            either(
                search_of(command, cwd),
                either(
                    inspect_of(command),
                    either(
                        bounded_read_of(command),
                        either(find_of(command, cwd), listing_of(command, cwd, false)),
                    ),
                ),
            ),
        ),
    )
}

fn read_lenient_operation(command: &str, cwd: Option<&str>) -> (r: Option<FastOperation>)
    ensures
        view_of(r) == lenient_operation(command@, cwd.deep_view()),
{
    let operation = parse_find_projection(command, cwd);
    if operation.is_some() {
        return operation;
    }
    let operation = parse_find_pipeline(command, cwd);
    if operation.is_some() {
        return operation;
    }
    let operation = parse_find_measure(command, cwd);
    if operation.is_some() {
        return operation;
    }
    parse_directory_pipeline(command, cwd)
}

fn read_strict_operation(command: &str, cwd: Option<&str>) -> (r: Option<FastOperation>)
    ensures
        view_of(r) == strict_operation(command@, cwd.deep_view()),
{
    let operation = parse_get_content_slice(command);
    if operation.is_some() {
        return operation;
    }
    let operation = parse_get_content_select_string(command);
    if operation.is_some() {
        return operation;
    }
    let operation = parse_select_string(command, cwd);
    if operation.is_some() {
        return operation;
    }
    let operation = parse_get_content_inspect(command);
    if operation.is_some() {
        return operation;
    }
    let operation = parse_get_content_bounded(command);
    if operation.is_some() {
        return operation;
    }
    let operation = parse_get_child_item_find(command, cwd);
    if operation.is_some() {
        return operation;
    }
    parse_get_child_item_list(command, cwd, false)
}

/// The decision on a trimmed command, given the list and the script that it
/// reads as, if it does, and whether it is valid PowerShell.
///
/// What is dynamic or changes something is left to the shell. A list is fast.
/// Else a sign of redirection anywhere, in quotes or not, and what runs a
/// program are left to the shell, and so is any command that does not work on
/// files and is no script. What is left is fast where it is
/// one command and understood, and noted where it is not but works on files.
pub open spec fn decision(
    command: Seq<char>,
    cwd: Option<Seq<char>>,
    list: Option<OperationView>,
    script: Option<OperationView>,
    valid: bool,
) -> DecisionView {
    let first = first_name(command);
    if command.len() == 0 {
        DecisionView::PassThrough(PassThroughReason::NotAFileCommand)
    } else if dynamic(command) {
        DecisionView::PassThrough(PassThroughReason::DynamicOrUnsafe)
    } else if alters(command) {
        DecisionView::PassThrough(PassThroughReason::Mutating)
    } else if list is Some {
        DecisionView::Fast(list->0)
    } else if mutating(command, first) {
        DecisionView::PassThrough(PassThroughReason::Mutating)
    } else if runs_program(command) {
        DecisionView::PassThrough(PassThroughReason::ExternalProgram)
    } else if script is Some {
        DecisionView::Fast(script->0)
    } else if first matches Some(name) && !interesting(name) {
        DecisionView::PassThrough(PassThroughReason::ExternalProgram)
    } else if is_one(command) && lenient_operation(command, cwd) is Some {
        DecisionView::Fast(lenient_operation(command, cwd)->0)
    } else if !valid {
        if unknown_worthy(command, first) {
            DecisionView::UnknownCandidate(
                unknown_of(command, "invalid_or_unsupported_powershell_shape"@),
            )
        } else {
            DecisionView::PassThrough(PassThroughReason::InvalidPowerShell)
        }
    } else if is_one(command) && strict_operation(command, cwd) is Some {
        DecisionView::Fast(strict_operation(command, cwd)->0)
    } else if unknown_worthy(command, first) {
        DecisionView::UnknownCandidate(unknown_of(command, "unsupported_file_command_shape"@))
    } else {
        DecisionView::PassThrough(PassThroughReason::NotAFileCommand)
    }
}

/// Whether a command is left to the shell before a list in it is looked for,
/// and why.
pub fn refuse_early(command: &str) -> (r: Option<PassThroughReason>)
    ensures
        r == if dynamic(command@) {
            Some(PassThroughReason::DynamicOrUnsafe)
        } else if alters(command@) {
            Some(PassThroughReason::Mutating)
        } else {
            None
        },
{
    if has_dynamic_or_unsafe_constructs(command) {
        return Some(PassThroughReason::DynamicOrUnsafe);
    }
    if changes_something(command) {
        return Some(PassThroughReason::Mutating);
    }
    None
}

/// Whether a command that is no list is left to the shell before anything
/// else in it is looked for, and why.
pub fn refuse_single(command: &str) -> (r: Option<PassThroughReason>)
    ensures
        r == if mutating(command@, first_name(command@)) {
            Some(PassThroughReason::Mutating)
        } else if runs_program(command@) {
            Some(PassThroughReason::ExternalProgram)
        } else {
            None
        },
{
    let first = first_command_name(command);
    if is_mutating_command(command, option_str(&first)) {
        return Some(PassThroughReason::Mutating);
    }
    if starts_program(command) {
        return Some(PassThroughReason::ExternalProgram);
    }
    None
}

/// Whether a command runs a program.
pub open spec fn runs_program(command: Seq<char>) -> bool {
    first_name(command) matches Some(name) && is_program(name)
}

/// Whether a command runs a program.
fn starts_program(command: &str) -> (r: bool)
    ensures
        r == runs_program(command@),
{
    match first_command_name(command) {
        Some(name) => is_external_program_command(name.as_str()),
        None => false,
    }
}

fn decide_plain(command: &str, cwd: Option<&str>, valid: bool) -> (r: ParseDecision)
    requires
        command@.len() > 0,
        !dynamic(command@),
        !alters(command@),
        !mutating(command@, first_name(command@)),
        !runs_program(command@),
    ensures
        r.deep_view() == decision(command@, cwd.deep_view(), None, None, valid),
{
    let first = first_command_name(command);
    let name: Option<&str> = match &first {
        Some(name) => Some(name.as_str()),
        None => None,
    };
    if let Some(name) = name {
        if !is_interesting_file_command(name) {
            return ParseDecision::PassThrough(PassThroughReason::ExternalProgram);
        }
    }
    let one = is_one_command(command);
    if one {
        if let Some(operation) = read_lenient_operation(command, cwd) {
            return ParseDecision::Fast(operation);
        }
    }
    if !valid {
        if is_unknown_candidate(command, name) {
            return ParseDecision::UnknownCandidate(
                unknown_candidate(command, "invalid_or_unsupported_powershell_shape"),
            );
        }
        return ParseDecision::PassThrough(PassThroughReason::InvalidPowerShell);
    }
    if one {
        if let Some(operation) = read_strict_operation(command, cwd) {
            return ParseDecision::Fast(operation);
        }
    }
    if is_unknown_candidate(command, name) {
        return ParseDecision::UnknownCandidate(
            unknown_candidate(command, "unsupported_file_command_shape"),
        );
    }
    ParseDecision::PassThrough(PassThroughReason::NotAFileCommand)
}

/// The decision on a trimmed command, given the list and the script that it
/// reads as, if it does, and whether it is valid PowerShell.
pub fn decide_command(
    command: &str,
    cwd: Option<&str>,
    list: Option<FastOperation>,
    script: Option<FastOperation>,
    valid: bool,
) -> (r: ParseDecision)
    ensures
        r.deep_view() == decision(
            command@,
            cwd.deep_view(),
            view_of(list),
            view_of(script),
            valid,
        ),
{
    if command.unicode_len() == 0 {
        return ParseDecision::PassThrough(PassThroughReason::NotAFileCommand);
    }
    if let Some(reason) = refuse_early(command) {
        return ParseDecision::PassThrough(reason);
    }
    if let Some(operation) = list {
        return ParseDecision::Fast(operation);
    }
    if let Some(reason) = refuse_single(command) {
        return ParseDecision::PassThrough(reason);
    }
    if let Some(operation) = script {
        return ParseDecision::Fast(operation);
    }
    decide_plain(command, cwd, valid)
}

} // verus!
