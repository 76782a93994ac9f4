//! Checks of a whole project at the end of a turn, where it asks for them.
#![verifier::loop_isolation(false)]

use crate::bytes::{byte_range, from_utf8_lossy, lossy_text};
use crate::case::{eq_ignore_ascii_case, same_ignoring_case};
use crate::error::BackendError;
use crate::number::{decimal, decimal_int, decimal_signed, push_decimal};
use crate::paths::{
    extension, extension_in, is_parent, join_path, joins, name_of, names, parent, resolve_path,
    resolves_to,
};
use crate::split::{
    after_last, byte_len, join, joined, replace, replaced, rsplit_after, utf8_len,
};
use crate::text::{
    after_prefix, clone_option, clone_texts, is_whitespace, option_is, option_str,
    owned, push_item, same, strip_prefix, text_range, to_chars, trim, trimmed, whitespace,
};
use vstd::prelude::*;
use vstd::string::*;
use vstd::utf8::*;

verus! {

/// At most so much output of a check is kept.
pub const MAX_OUTPUT_BYTES: usize = 65_536;

/// At most so many files are checked one by one.
pub const MAX_CPP_CHECK_FILES: usize = 10;

// Configuration.

/// What a project asks for at the end of a turn.
#[derive(Debug, Clone, PartialEq, Eq)]
pub struct ProjectCheckConfig {
    pub enabled: bool,
    pub kind: String,
    pub command: Option<String>,
    pub timeout_seconds: Option<u64>,
    pub trigger: Option<String>,
    pub changed_files: Option<Vec<String>>,
}

/// What a project asks for at the end of a turn, file by file.
#[derive(Debug, Clone, PartialEq, Eq)]
pub struct CppCheckConfig {
    pub enabled: bool,
    pub kind: String,
    pub command: Option<String>,
    pub timeout_seconds: Option<u64>,
    pub trigger: Option<String>,
    pub changed_files: Option<Vec<String>>,
    pub compile_commands_dir: Option<String>,
}

/// The contents of what a project asks for.
#[verifier::ext_equal]
pub ghost struct CheckView {
    pub enabled: bool,
    pub kind: Seq<char>,
    pub command: Option<Seq<char>>,
    pub timeout_seconds: Option<u64>,
    pub trigger: Option<Seq<char>>,
    pub changed_files: Option<Seq<Seq<char>>>,
    pub compile_commands_dir: Option<Seq<char>>,
}

impl DeepView for ProjectCheckConfig {
    type V = CheckView;

    open spec fn deep_view(&self) -> CheckView {
        CheckView {
            enabled: self.enabled,
            kind: self.kind@,
            command: self.command.deep_view(),
            timeout_seconds: self.timeout_seconds,
            trigger: self.trigger.deep_view(),
            changed_files: self.changed_files.deep_view(),
            compile_commands_dir: None,
        }
    }
}

impl DeepView for CppCheckConfig {
    type V = CheckView;

    open spec fn deep_view(&self) -> CheckView {
        CheckView {
            enabled: self.enabled,
            kind: self.kind@,
            command: self.command.deep_view(),
            timeout_seconds: self.timeout_seconds,
            trigger: self.trigger.deep_view(),
            changed_files: self.changed_files.deep_view(),
            compile_commands_dir: self.compile_commands_dir.deep_view(),
        }
    }
}

// Failures.

/// A check that failed.
#[derive(Debug, Clone, PartialEq, Eq)]
pub struct ProjectCheckFailure {
    pub command: String,
    pub cwd: String,
    pub exit_code: Option<i32>,
    pub stdout: String,
    pub stderr: String,
}

/// The contents of a failure.
#[verifier::ext_equal]
pub ghost struct FailureView {
    pub command: Seq<char>,
    pub cwd: Seq<char>,
    pub exit_code: Option<i32>,
    pub stdout: Seq<char>,
    pub stderr: Seq<char>,
}

impl DeepView for ProjectCheckFailure {
    type V = FailureView;

    open spec fn deep_view(&self) -> FailureView {
        FailureView {
            command: self.command@,
            cwd: self.cwd@,
            exit_code: self.exit_code,
            stdout: self.stdout@,
            stderr: self.stderr@,
        }
    }
}

impl ProjectCheckFailure {
    /// A copy.
    pub fn copy(&self) -> (r: ProjectCheckFailure)
        ensures
            r.deep_view() == self.deep_view(),
    {
        ProjectCheckFailure {
            command: self.command.clone(),
            cwd: self.cwd.clone(),
            exit_code: self.exit_code,
            stdout: self.stdout.clone(),
            stderr: self.stderr.clone(),
        }
    }
}

/// A failure with what was checked.
#[derive(Debug, Clone, PartialEq, Eq)]
pub struct ProjectCheckDiagnostic {
    pub kind: String,
    pub file: Option<String>,
    pub failure: ProjectCheckFailure,
}

/// The contents of a diagnostic.
#[verifier::ext_equal]
pub ghost struct DiagnosticView {
    pub kind: Seq<char>,
    pub file: Option<Seq<char>>,
    pub failure: FailureView,
}

impl DeepView for ProjectCheckDiagnostic {
    type V = DiagnosticView;

    open spec fn deep_view(&self) -> DiagnosticView {
        DiagnosticView {
            kind: self.kind@,
            file: self.file.deep_view(),
            failure: self.failure.deep_view(),
        }
    }
}

/// Something that runs a check: a failure where the check fails, none where
/// it passes or could not be run to its end.
pub trait ProjectCommandRunner {
    /// Whether the runner may give a result for a command, run in a directory
    /// for at most so many seconds. One that does not say so may give
    /// anything.
    open spec fn may_give(
        &self,
        command: Seq<char>,
        cwd: Seq<char>,
        timeout_seconds: u64,
        r: Result<Option<ProjectCheckFailure>, BackendError>,
    ) -> bool {
        true
    }

    fn run(&self, command: &str, cwd: &str, timeout_seconds: u64) -> (r: Result<
        Option<ProjectCheckFailure>,
        BackendError,
    >)
        ensures
            self.may_give(command@, cwd@, timeout_seconds, r),
    ;
}

/// Whether the runner may give a result for a planned check.
pub open spec fn may_end<R: ProjectCommandRunner + ?Sized>(
    runner: &R,
    check: PlannedView,
    r: Result<Option<ProjectCheckFailure>, BackendError>,
) -> bool {
    runner.may_give(check.command, check.cwd, check.timeout_seconds, r)
}

/// Whether the runner may give each of the outcomes for the check at its
/// place.
pub open spec fn outcomes_given<R: ProjectCommandRunner + ?Sized>(
    runner: &R,
    plan: Seq<PlannedView>,
    outcomes: Seq<Option<ProjectCheckFailure>>,
) -> bool {
    forall|i: int|
        0 <= i < outcomes.len() ==> may_end(
            runner,
            plan[i],
            Ok::<Option<ProjectCheckFailure>, BackendError>(#[trigger] outcomes[i]),
        )
}

// Output.

/// The longest start of a text with at most `max` bytes.
pub open spec fn cut_at(text: Seq<char>, max: nat) -> Seq<char>
    decreases text.len(),
{
    if utf8_len(text) <= max || text.len() == 0 {
        text
    } else {
        cut_at(text.drop_last(), max)
    }
}

/// Output without the white space around it, cut where it is too long.
pub open spec fn trimmed_output(output: Seq<char>) -> Seq<char> {
    let text = trimmed(output);
    if utf8_len(text) > MAX_OUTPUT_BYTES {
        cut_at(text, MAX_OUTPUT_BYTES as nat) + "\n... truncated ..."@
    } else {
        text
    }
}

proof fn lemma_utf8_push(text: Seq<char>, c: char)
    ensures
        utf8_len(text.push(c)) == utf8_len(text) + utf8_len(seq![c]),
    decreases text.len(),
{
    if text.len() == 0 {
        assert(text.push(c) =~= seq![c]);
    } else {
        assert(text.push(c).drop_first() =~= text.drop_first().push(c));
        lemma_utf8_push(text.drop_first(), c);
    }
}

fn cut_text(text: &str, max: usize) -> (r: String)
    ensures
        r@ == cut_at(text@, max as nat),
{
    let chars = to_chars(text);
    let mut size = byte_len(text);
    let mut n: usize = chars.len();
    assert(chars@.take(n as int) =~= chars@);
    while n > 0 && size > max
        invariant
            n <= chars.len(),
            size == utf8_len(chars@.take(n as int)),
            cut_at(chars@.take(n as int), max as nat) == cut_at(text@, max as nat),
        decreases n,
    {
        proof {
            let longer = chars@.take(n as int);
            let shorter = chars@.take(n - 1);
            assert(longer.drop_last() =~= shorter);
            assert(longer =~= shorter.push(chars@[n - 1]));
            lemma_utf8_push(shorter, chars@[n - 1]);
        }
        let last = text_range(&chars, n - 1, n);
        assert(last@ =~= seq![chars@[n - 1]]);
        size -= byte_len(last.as_str());
        n -= 1;
    }
    let out = text_range(&chars, 0, n);
    assert(out@ =~= chars@.take(n as int));
    out
}

/// Output without the white space around it, cut where it is too long.
pub fn trim_output(output: &str) -> (r: String)
    ensures
        r@ == trimmed_output(output@),
{
    let text = trim(output);
    if byte_len(text.as_str()) > MAX_OUTPUT_BYTES {
        let mut cut = cut_text(text.as_str(), MAX_OUTPUT_BYTES);
        cut.append("\n... truncated ...");
        cut
    } else {
        text
    }
}

/// The text of the first bytes of an output.
pub open spec fn capped_text(bytes: Seq<u8>) -> Seq<char> {
    lossy_text(
        if bytes.len() > MAX_OUTPUT_BYTES {
            bytes.take(MAX_OUTPUT_BYTES as int)
        } else {
            bytes
        },
    )
}

/// The text of the first bytes of an output.
pub fn capped_utf8(bytes: &Vec<u8>) -> (r: String)
    ensures
        r@ == capped_text(bytes@),
{
    if bytes.len() > MAX_OUTPUT_BYTES {
        let head = byte_range(bytes.as_slice(), 0, MAX_OUTPUT_BYTES);
        assert(head@ =~= bytes@.take(MAX_OUTPUT_BYTES as int));
        from_utf8_lossy(head.as_slice())
    } else {
        from_utf8_lossy(bytes.as_slice())
    }
}

/// What a finished check gives: nothing where it passed, else the failure
/// with the start of its output.
pub fn finished_check(
    command: &str,
    cwd: &str,
    success: bool,
    exit_code: Option<i32>,
    stdout: &Vec<u8>,
    stderr: &Vec<u8>,
) -> (r: Option<ProjectCheckFailure>)
    ensures
        r.deep_view() == if success {
            None
        } else {
            Some(
                FailureView {
                    command: command@,
                    cwd: cwd@,
                    exit_code,
                    stdout: capped_text(stdout@),
                    stderr: capped_text(stderr@),
                },
            )
        },
{
    if success {
        return None;
    }
    Some(
        ProjectCheckFailure {
            command: owned(command),
            cwd: owned(cwd),
            exit_code,
            stdout: capped_utf8(stdout),
            stderr: capped_utf8(stderr),
        },
    )
}

// Commands.

/// The arguments of a command from its start on, with `current` read of the
/// next one and `quote` open. Quotes group and are left out; white space
/// outside them separates.
pub open spec fn arguments_from(
    s: Seq<char>,
    quote: Option<char>,
    current: Seq<char>,
) -> Seq<Seq<char>>
    decreases s.len(),
{
    if s.len() == 0 {
        if current.len() > 0 {
            seq![current]
        } else {
            Seq::empty()
        }
    } else {
        let c = s[0];
        let rest = s.skip(1);
        if quote == Some(c) {
            arguments_from(rest, None, current)
        } else if quote is None && (c == '"' || c == '\'') {
            arguments_from(rest, Some(c), current)
        } else if quote is None && whitespace(c) {
            if current.len() > 0 {
                seq![current] + arguments_from(rest, None, Seq::empty())
            } else {
                arguments_from(rest, None, current)
            }
        } else {
            arguments_from(rest, quote, current.push(c))
        }
    }
}

/// The arguments of a command.
pub open spec fn arguments_of(command: Seq<char>) -> Seq<Seq<char>> {
    arguments_from(command, None, Seq::empty())
}

/// The arguments of a command.
pub fn split_command_parts(command: &str) -> (r: Vec<String>)
    ensures
        r.deep_view() == arguments_of(command@),
{
    let chars = to_chars(command);
    let mut parts: Vec<String> = Vec::new();
    let mut current = String::new();
    let mut quote: Option<char> = None;
    let mut i: usize = 0;
    assert(chars@.skip(0) =~= chars@);
    assert(parts.deep_view() + arguments_of(chars@) =~= arguments_of(chars@));
    while i < chars.len()
        invariant
            i <= chars.len(),
            parts.deep_view() + arguments_from(chars@.skip(i as int), quote, current@)
                == arguments_of(command@),
        decreases chars.len() - i,
    {
        let c = chars[i];
        let ghost rest = chars@.skip(i as int);
        let ghost before = parts.deep_view();
        assert(rest[0] == c);
        assert(rest.skip(1) =~= chars@.skip(i + 1));
        match quote {
            Some(open) => {
                if open == c {
                    quote = None;
                } else {
                    current.push(c);
                }
            },
            None => {
                if c == '"' || c == '\'' {
                    quote = Some(c);
                } else if is_whitespace(c) {
                    if current.as_str().unicode_len() > 0 {
                        let ghost word = current@;
                        let ghost old_current = current@;
                        push_item(&mut parts, current);
                        current = String::new();
                        assert(current@ =~= Seq::<char>::empty());
                        assert(before + arguments_from(rest, None, old_current)
                            =~= parts.deep_view() + arguments_from(
                            rest.skip(1),
                            None,
                            Seq::empty(),
                        ));
                    }
                } else {
                    current.push(c);
                }
            },
        }
        i += 1;
    }
    assert(chars@.skip(i as int) =~= Seq::<char>::empty());
    if current.as_str().unicode_len() > 0 {
        let ghost before = parts.deep_view();
        let ghost word = current@;
        push_item(&mut parts, current);
        assert(parts.deep_view() =~= before + seq![word]);
    } else {
        assert(parts.deep_view() + Seq::<Seq<char>>::empty() =~= parts.deep_view());
    }
    parts
}

/// The program and the arguments of a command; fails on one without words.
pub fn split_command(command: &str) -> (r: Result<(String, Vec<String>), BackendError>)
    ensures
        match r {
            Ok((program, args)) => arguments_of(command@).len() > 0 && program@ == arguments_of(
                command@,
            )[0] && args.deep_view() == arguments_of(command@).skip(1),
            Err(error) => arguments_of(command@).len() == 0 && error.deep_view()
                == "empty project check command"@,
        },
{
    let parts = split_command_parts(command);
    if parts.len() == 0 {
        return Err(BackendError::new("empty project check command"));
    }
    assert(parts.deep_view()[0] == parts[0]@);
    let program = parts[0].clone();
    Ok((program, crate::text::texts_from(&parts, 1)))
}

/// Whether a value holds white space.
pub open spec fn has_space(value: Seq<char>) -> bool {
    exists|i: int| 0 <= i < value.len() && whitespace(#[trigger] value[i])
}

/// A value as one argument: in quotes where it holds white space.
pub open spec fn quoted_value(value: Seq<char>) -> Seq<char> {
    if has_space(value) {
        "\""@ + replaced(value, "\""@, "\\\""@) + "\""@
    } else {
        value
    }
}

/// A value as one argument.
pub fn quote_command_value(value: &str) -> (r: String)
    ensures
        r@ == quoted_value(value@),
{
    let chars = to_chars(value);
    let mut i: usize = 0;
    while i < chars.len()
        invariant
            i <= chars.len(),
            forall|j: int| 0 <= j < i ==> !whitespace(#[trigger] chars@[j]),
        decreases chars.len() - i,
    {
        if is_whitespace(chars[i]) {
            assert(whitespace(chars@[i as int]));
            let mut out = owned("\"");
            out.append(replace(value, "\"", "\\\"").as_str());
            out.append("\"");
            return out;
        }
        i += 1;
    }
    owned(value)
}

/// The command for one file.
pub open spec fn cpp_command(template: Seq<char>, file: Seq<char>, dir: Seq<char>) -> Seq<char> {
    replaced(
        replaced(template, "{file}"@, quoted_value(file)),
        "{compile_commands_dir}"@,
        quoted_value(dir),
    )
}

/// The command for one file.
pub fn render_cpp_command(template: &str, file: &str, compile_commands_dir: &str) -> (r: String)
    ensures
        r@ == cpp_command(template@, file@, compile_commands_dir@),
{
    let with_file = replace(template, "{file}", quote_command_value(file).as_str());
    replace(
        with_file.as_str(),
        "{compile_commands_dir}",
        quote_command_value(compile_commands_dir).as_str(),
    )
}

// Changed files.

/// Whether a file name matches a pattern: any, any with an extension, or one
/// name, up to case.
pub open spec fn name_fits(name: Seq<char>, pattern: Seq<char>) -> bool {
    if pattern == "*"@ {
        true
    } else {
        match after_prefix(pattern, "*."@) {
            Some(extension) => after_last(name, '.') matches Some(own) && same_ignoring_case(
                own,
                extension,
            ),
            None => same_ignoring_case(name, pattern),
        }
    }
}

/// Whether a file name matches a pattern.
pub fn wildcard_match(value: &str, pattern: &str) -> (r: bool)
    ensures
        r == name_fits(value@, pattern@),
{
    if same(pattern, "*") {
        return true;
    }
    match strip_prefix(pattern, "*.") {
        Some(extension) => match rsplit_after(value, '.') {
            Some(own) => eq_ignore_ascii_case(own.as_str(), extension.as_str()),
            None => false,
        },
        None => eq_ignore_ascii_case(value, pattern),
    }
}

/// Whether a name matches one of the patterns.
pub open spec fn fits_any(name: Seq<char>, patterns: Seq<Seq<char>>) -> bool {
    exists|i: int| 0 <= i < patterns.len() && name_fits(name, #[trigger] patterns[i])
}

/// The patterns that are used: those configured, or the default.
pub open spec fn patterns_used(
    configured: Option<Seq<Seq<char>>>,
    default: Seq<Seq<char>>,
) -> Seq<Seq<char>> {
    match configured {
        Some(patterns) => patterns,
        None => default,
    }
}

/// The default patterns for Rust.
pub open spec fn rust_patterns() -> Seq<Seq<char>> {
    seq!["*.rs"@]
}

/// The default patterns for C and C++.
pub open spec fn cpp_patterns() -> Seq<Seq<char>> {
    seq!["*.c"@, "*.cc"@, "*.cpp"@, "*.cxx"@, "*.h"@, "*.hh"@, "*.hpp"@, "*.hxx"@]
}

fn default_rust_patterns() -> (r: Vec<String>)
    ensures
        r.deep_view() == rust_patterns(),
{
    let mut patterns: Vec<String> = Vec::new();
    push_item(&mut patterns, owned("*.rs"));
    assert(patterns.deep_view() =~= rust_patterns());
    patterns
}

fn default_cpp_patterns() -> (r: Vec<String>)
    ensures
        r.deep_view() == cpp_patterns(),
{
    let mut patterns: Vec<String> = Vec::new();
    push_item(&mut patterns, owned("*.c"));
    push_item(&mut patterns, owned("*.cc"));
    push_item(&mut patterns, owned("*.cpp"));
    push_item(&mut patterns, owned("*.cxx"));
    push_item(&mut patterns, owned("*.h"));
    push_item(&mut patterns, owned("*.hh"));
    push_item(&mut patterns, owned("*.hpp"));
    push_item(&mut patterns, owned("*.hxx"));
    assert(patterns.deep_view() =~= cpp_patterns());
    patterns
}

fn choose_patterns(configured: &Option<Vec<String>>, default: Vec<String>) -> (r: Vec<String>)
    ensures
        r.deep_view() == patterns_used(configured.deep_view(), default.deep_view()),
{
    match configured {
        Some(patterns) => clone_texts(patterns),
        None => default,
    }
}

/// Whether a name matches one of the patterns.
pub fn name_matches_patterns(name: &str, patterns: &Vec<String>) -> (r: bool)
    ensures
        r == fits_any(name@, patterns.deep_view()),
{
    let ghost view = patterns.deep_view();
    let mut i: usize = 0;
    while i < patterns.len()
        invariant
            i <= patterns.len(),
            forall|j: int| 0 <= j < i ==> !name_fits(name@, #[trigger] view[j]),
        decreases patterns.len() - i,
    {
        assert(view[i as int] == patterns[i as int]@);
        if wildcard_match(name, patterns[i].as_str()) {
            assert(name_fits(name@, view[i as int]));
            return true;
        }
        i += 1;
    }
    false
}

/// A file that was changed, or may be checked.
#[derive(Debug, Clone, PartialEq, Eq)]
pub struct TouchedFile {
    /// The path as it was noted.
    pub path: String,
    /// The name of the file.
    pub name: String,
    /// The path from the working directory on, where it is relative.
    pub full_path: String,
    /// Whether a file is there.
    pub is_file: bool,
}

/// The contents of a changed file.
#[verifier::ext_equal]
pub ghost struct TouchedView {
    pub path: Seq<char>,
    pub name: Seq<char>,
    pub full_path: Seq<char>,
    pub is_file: bool,
}

impl DeepView for TouchedFile {
    type V = TouchedView;

    open spec fn deep_view(&self) -> TouchedView {
        TouchedView {
            path: self.path@,
            name: self.name@,
            full_path: self.full_path@,
            is_file: self.is_file,
        }
    }
}

/// A path from a directory on, unless it is absolute. What is absolute, and
/// how paths are joined, is up to the host.
pub fn resolve_config_path(root: &str, value: &str) -> (r: String)
    ensures
        resolves_to(value@, Some(root@), Some(r@)),
{
    match resolve_path(value, Some(root)) {
        Some(path) => path,
        None => owned(value),
    }
}

impl TouchedFile {
    /// A changed file before it is known whether it is there. Its name and
    /// its full path are what the host sees in the path.
    pub fn new(path: &str, cwd: &str) -> (r: TouchedFile)
        ensures
            r.path@ == path@,
            !r.is_file,
            names(path@, r.name@),
            resolves_to(
                path@,
                Some(cwd@),
                Some(r.full_path@),
            ),
    {
        TouchedFile {
            path: owned(path),
            name: name_of(path),
            full_path: resolve_config_path(cwd, path),
            is_file: false,
        }
    }
}

/// What is to be checked: the files that were changed, seen from a directory.
#[derive(Debug, Clone, PartialEq, Eq)]
pub struct ProjectCheckRequest {
    pub cwd: String,
    pub touched_paths: Vec<String>,
}

/// Whether a changed file is that at `path`, with what the host sees in it.
pub open spec fn touched_at(file: TouchedView, path: Seq<char>, cwd: Seq<char>) -> bool {
    &&& file.path == path
    &&& !file.is_file
    &&& names(path, file.name)
    &&& resolves_to(path, Some(cwd), Some(file.full_path))
}

/// The changed files, in order, before it is known whether they are there.
pub fn touched_files(request: &ProjectCheckRequest) -> (r: Vec<TouchedFile>)
    ensures
        r.len() == request.touched_paths.len(),
        forall|i: int|
            0 <= i < r.len() ==> touched_at(
                #[trigger] r.deep_view()[i],
                request.touched_paths.deep_view()[i],
                request.cwd@,
            ),
{
    let mut files: Vec<TouchedFile> = Vec::new();
    let mut i: usize = 0;
    while i < request.touched_paths.len()
        invariant
            i <= request.touched_paths.len(),
            files.len() == i,
            forall|j: int|
                0 <= j < i ==> touched_at(
                    (#[trigger] files@[j]).deep_view(),
                    request.touched_paths.deep_view()[j],
                    request.cwd@,
                ),
        decreases request.touched_paths.len() - i,
    {
        assert(request.touched_paths.deep_view()[i as int] == request.touched_paths[i as int]@);
        let file = TouchedFile::new(request.touched_paths[i].as_str(), request.cwd.as_str());
        files.push(file);
        i += 1;
    }
    files
}

/// Where the compile commands should be: where the configuration says, or in
/// its own directory.
pub fn compile_commands_dir(config: &CppCheckConfig, config_root: &str) -> (r: String)
    ensures
        resolves_to(
            match config.compile_commands_dir.deep_view() {
                Some(dir) => dir,
                None => "."@,
            },
            Some(config_root@),
            Some(r@),
        ),
{
    match &config.compile_commands_dir {
        Some(dir) => resolve_config_path(config_root, dir.as_str()),
        None => resolve_config_path(config_root, "."),
    }
}

/// Whether a changed file matches one of the patterns.
pub open spec fn any_touched(touched: Seq<TouchedView>, patterns: Seq<Seq<char>>) -> bool {
    exists|i: int| 0 <= i < touched.len() && fits_any((#[trigger] touched[i]).name, patterns)
}

/// Whether a changed file matches one of the patterns.
pub fn changed_files_match(touched: &Vec<TouchedFile>, patterns: &Vec<String>) -> (r: bool)
    ensures
        r == any_touched(touched.deep_view(), patterns.deep_view()),
{
    let ghost view = touched.deep_view();
    let mut i: usize = 0;
    while i < touched.len()
        invariant
            i <= touched.len(),
            forall|j: int|
                0 <= j < i ==> !fits_any((#[trigger] view[j]).name, patterns.deep_view()),
        decreases touched.len() - i,
    {
        assert(view[i as int] == touched[i as int].deep_view());
        if name_matches_patterns(touched[i].name.as_str(), patterns) {
            assert(fits_any(view[i as int].name, patterns.deep_view()));
            return true;
        }
        i += 1;
    }
    false
}

// Plans.

/// A check to be run.
#[derive(Debug, Clone, PartialEq, Eq)]
pub struct PlannedCheck {
    pub kind: &'static str,
    pub file: Option<String>,
    pub command: String,
    pub cwd: String,
    pub timeout_seconds: u64,
}

/// The contents of a check to be run.
#[verifier::ext_equal]
pub ghost struct PlannedView {
    pub kind: Seq<char>,
    pub file: Option<Seq<char>>,
    pub command: Seq<char>,
    pub cwd: Seq<char>,
    pub timeout_seconds: u64,
}

impl DeepView for PlannedCheck {
    type V = PlannedView;

    open spec fn deep_view(&self) -> PlannedView {
        PlannedView {
            kind: self.kind@,
            file: self.file.deep_view(),
            command: self.command@,
            cwd: self.cwd@,
            timeout_seconds: self.timeout_seconds,
        }
    }
}

/// A time limit between one second and two minutes.
pub open spec fn clamped_timeout(configured: Option<u64>, default: u64) -> u64 {
    let seconds = match configured {
        Some(seconds) => seconds,
        None => default,
    };
    if seconds < 1 {
        1
    } else if seconds > 120 {
        120
    } else {
        seconds
    }
}

fn clamp_timeout(configured: Option<u64>, default: u64) -> (r: u64)
    ensures
        r == clamped_timeout(configured, default),
{
    let seconds = match configured {
        Some(seconds) => seconds,
        None => default,
    };
    if seconds < 1 {
        1
    } else if seconds > 120 {
        120
    } else {
        seconds
    }
}

/// Whether a check is asked for: it is enabled, of the given kind, run at the
/// end of a turn, and one of the changed files concerns it.
pub open spec fn wanted(
    config: CheckView,
    kind: Seq<char>,
    touched: Seq<TouchedView>,
    default: Seq<Seq<char>>,
) -> bool {
    &&& config.enabled
    &&& config.kind == kind
    &&& (config.trigger matches Some(trigger) ==> trigger == "stop"@)
    &&& any_touched(touched, patterns_used(config.changed_files, default))
}

/// The command of a check without white space around it.
pub open spec fn command_of(config: CheckView, default: Seq<char>) -> Seq<char> {
    trimmed(
        match config.command {
            Some(command) => command,
            None => default,
        },
    )
}

fn choose_command(command: &Option<String>, default: &str) -> (r: String)
    ensures
        r@ == trimmed(
            match command.deep_view() {
                Some(command) => command,
                None => default@,
            },
        ),
{
    match command {
        Some(command) => trim(command.as_str()),
        None => trim(default),
    }
}

/// What is known of a project.
#[derive(Debug, Clone, PartialEq, Eq)]
pub struct ProjectFacts {
    pub project_check: Option<ProjectCheckConfig>,
    pub cpp_check: Option<CppCheckConfig>,
    /// The directory of the configuration.
    pub config_root: Option<String>,
    /// The directory of the Rust project around the working directory.
    pub cargo_root: Option<String>,
    /// Where the compile commands should be.
    pub compile_commands_dir: String,
    /// Whether they are there.
    pub has_compile_commands: bool,
    /// The changed files.
    pub touched: Vec<TouchedFile>,
}

/// The contents of what is known of a project.
#[verifier::ext_equal]
pub ghost struct ProjectView {
    pub project_check: Option<CheckView>,
    pub cpp_check: Option<CheckView>,
    pub config_root: Option<Seq<char>>,
    pub cargo_root: Option<Seq<char>>,
    pub compile_commands_dir: Seq<char>,
    pub has_compile_commands: bool,
    pub touched: Seq<TouchedView>,
}

impl DeepView for ProjectFacts {
    type V = ProjectView;

    open spec fn deep_view(&self) -> ProjectView {
        ProjectView {
            project_check: self.project_check.deep_view(),
            cpp_check: self.cpp_check.deep_view(),
            config_root: self.config_root.deep_view(),
            cargo_root: self.cargo_root.deep_view(),
            compile_commands_dir: self.compile_commands_dir@,
            has_compile_commands: self.has_compile_commands,
            touched: self.touched.deep_view(),
        }
    }
}

/// The check of a Rust project, if it is asked for, there is one and the
/// command is not empty.
pub open spec fn rust_plan(project: ProjectView) -> Option<PlannedView> {
    match project.project_check {
        Some(config) => if wanted(config, "rust"@, project.touched, rust_patterns()) {
            match project.cargo_root {
                Some(root) => {
                    let command = command_of(config, "cargo check -q"@);
                    if command.len() == 0 {
                        None
                    } else {
                        Some(
                            PlannedView {
                                kind: "rust"@,
                                file: None,
                                command,
                                cwd: root,
                                timeout_seconds: clamped_timeout(config.timeout_seconds, 15),
                            },
                        )
                    }
                },
                None => None,
            }
        } else {
            None
        },
        None => None,
    }
}

/// The check of a Rust project, if it is asked for.
pub fn plan_rust_check(project: &ProjectFacts) -> (r: Option<PlannedCheck>)
    ensures
        r.deep_view() == rust_plan(project.deep_view()),
{
    let config = match &project.project_check {
        Some(config) => config,
        None => {
            return None;
        },
    };
    let patterns = choose_patterns(&config.changed_files, default_rust_patterns());
    let trigger = match &config.trigger {
        Some(trigger) => same(trigger.as_str(), "stop"),
        None => true,
    };
    if !config.enabled || !same(config.kind.as_str(), "rust") || !trigger || !changed_files_match(
        &project.touched,
        &patterns,
    ) {
        return None;
    }
    let root = match &project.cargo_root {
        Some(root) => root,
        None => {
            return None;
        },
    };
    let command = choose_command(&config.command, "cargo check -q");
    if command.as_str().unicode_len() == 0 {
        return None;
    }
    Some(
        PlannedCheck {
            kind: "rust",
            file: None,
            command,
            cwd: root.clone(),
            timeout_seconds: clamp_timeout(config.timeout_seconds, 15),
        },
    )
}

/// The changed files that are there and match, as full paths, among the
/// first `n`.
pub open spec fn checkable_files(
    touched: Seq<TouchedView>,
    patterns: Seq<Seq<char>>,
    n: nat,
) -> Seq<Seq<char>>
    decreases n,
{
    if n == 0 {
        Seq::empty()
    } else {
        let before = checkable_files(touched, patterns, (n - 1) as nat);
        let file = touched[n - 1];
        if file.is_file && fits_any(file.name, patterns) {
            before.push(file.full_path)
        } else {
            before
        }
    }
}

/// The default command for one file.
pub open spec fn default_cpp_command() -> Seq<char> {
    "clangd --check={file} --compile-commands-dir={compile_commands_dir}"@
}

/// The check of one file.
pub open spec fn cpp_check_of(
    config: CheckView,
    root: Seq<char>,
    dir: Seq<char>,
    file: Seq<char>,
) -> PlannedView {
    PlannedView {
        kind: "cpp"@,
        file: Some(file),
        command: cpp_command(command_of(config, default_cpp_command()), file, dir),
        cwd: root,
        timeout_seconds: clamped_timeout(config.timeout_seconds, 20),
    }
}

/// The checks of the changed C and C++ files, at most so many, if they are
/// asked for, the compile commands are there and the command is not empty.
pub open spec fn cpp_plan(project: ProjectView) -> Seq<PlannedView> {
    match (project.cpp_check, project.config_root) {
        (Some(config), Some(root)) => {
            let patterns = patterns_used(config.changed_files, cpp_patterns());
            let files = checkable_files(project.touched, patterns, project.touched.len());
            let checked = if files.len() > MAX_CPP_CHECK_FILES {
                files.take(MAX_CPP_CHECK_FILES as int)
            } else {
                files
            };
            if wanted(config, "cpp"@, project.touched, cpp_patterns())
                && project.has_compile_commands && command_of(
                config,
                default_cpp_command(),
            ).len() > 0 {
                checked.map_values(
                    |file: Seq<char>|
                        cpp_check_of(config, root, project.compile_commands_dir, file),
                )
            } else {
                Seq::empty()
            }
        },
        _ => Seq::empty(),
    }
}

fn find_checkable(touched: &Vec<TouchedFile>, patterns: &Vec<String>) -> (r: Vec<String>)
    ensures
        r.deep_view() == checkable_files(
            touched.deep_view(),
            patterns.deep_view(),
            touched.len() as nat,
        ),
{
    let ghost view = touched.deep_view();
    let mut files: Vec<String> = Vec::new();
    let mut i: usize = 0;
    assert(files.deep_view() =~= Seq::<Seq<char>>::empty());
    while i < touched.len()
        invariant
            i <= touched.len(),
            files.deep_view() == checkable_files(view, patterns.deep_view(), i as nat),
        decreases touched.len() - i,
    {
        assert(view[i as int] == touched[i as int].deep_view());
        if touched[i].is_file && name_matches_patterns(touched[i].name.as_str(), patterns) {
            push_item(&mut files, touched[i].full_path.clone());
        }
        i += 1;
    }
    files
}

/// The checks of the changed C and C++ files.
pub fn build_cpp_check_plan(project: &ProjectFacts) -> (r: Vec<PlannedCheck>)
    ensures
        r.deep_view() == cpp_plan(project.deep_view()),
{
    let mut plan: Vec<PlannedCheck> = Vec::new();
    assert(plan.deep_view() =~= Seq::<PlannedView>::empty());
    let config = match &project.cpp_check {
        Some(config) => config,
        None => {
            return plan;
        },
    };
    let root = match &project.config_root {
        Some(root) => root,
        None => {
            return plan;
        },
    };
    let patterns = choose_patterns(&config.changed_files, default_cpp_patterns());
    let trigger = match &config.trigger {
        Some(trigger) => same(trigger.as_str(), "stop"),
        None => true,
    };
    if !config.enabled || !same(config.kind.as_str(), "cpp") || !trigger || !changed_files_match(
        &project.touched,
        &patterns,
    ) || !project.has_compile_commands {
        return plan;
    }
    let template = choose_command(
        &config.command,
        "clangd --check={file} --compile-commands-dir={compile_commands_dir}",
    );
    if template.as_str().unicode_len() == 0 {
        return plan;
    }
    let files = find_checkable(&project.touched, &patterns);
    let count: usize = if files.len() > MAX_CPP_CHECK_FILES {
        MAX_CPP_CHECK_FILES
    } else {
        files.len()
    };
    let ghost view = project.deep_view();
    let ghost all = cpp_plan(view);
    let ghost c = config.deep_view();
    assert(files.len() <= MAX_CPP_CHECK_FILES ==> files.deep_view().take(count as int)
        =~= files.deep_view());
    let mut i: usize = 0;
    assert(plan.deep_view() =~= all.take(0));
    while i < count
        invariant
            i <= count <= files.len(),
            plan.deep_view() == all.take(i as int),
        decreases count - i,
    {
        assert(files.deep_view()[i as int] == files[i as int]@);
        let check = PlannedCheck {
            kind: "cpp",
            file: Some(files[i].clone()),
            command: render_cpp_command(
                template.as_str(),
                files[i].as_str(),
                project.compile_commands_dir.as_str(),
            ),
            cwd: root.clone(),
            timeout_seconds: clamp_timeout(config.timeout_seconds, 20),
        };
        assert(check.deep_view() == cpp_check_of(
            c,
            root@,
            view.compile_commands_dir,
            files[i as int]@,
        ));
        push_item(&mut plan, check);
        i += 1;
        assert(plan.deep_view() =~= all.take(i as int));
    }
    assert(all.take(i as int) =~= all);
    plan
}

/// The checks of a project, in order.
pub open spec fn plan_of(project: ProjectView) -> Seq<PlannedView> {
    (match rust_plan(project) {
        Some(check) => seq![check],
        None => Seq::empty(),
    }) + cpp_plan(project)
}

/// The checks of a project, in order.
pub fn plan_project_checks(project: &ProjectFacts) -> (r: Vec<PlannedCheck>)
    ensures
        r.deep_view() == plan_of(project.deep_view()),
{
    let mut plan: Vec<PlannedCheck> = Vec::new();
    if let Some(check) = plan_rust_check(project) {
        push_item(&mut plan, check);
    }
    let ghost first = plan.deep_view();
    let mut more = build_cpp_check_plan(project);
    let ghost second = more.deep_view();
    plan.append(&mut more);
    assert(plan.deep_view() =~= first + second);
    assert(plan.deep_view() =~= plan_of(project.deep_view()));
    plan
}

/// The diagnostics of the first `n` checks, given what each gave.
pub open spec fn diagnostics_from(
    plan: Seq<PlannedView>,
    outcomes: Seq<Option<FailureView>>,
    n: nat,
) -> Seq<DiagnosticView>
    decreases n,
{
    if n == 0 {
        Seq::empty()
    } else {
        let before = diagnostics_from(plan, outcomes, (n - 1) as nat);
        match outcomes[n - 1] {
            Some(failure) => before.push(
                DiagnosticView { kind: plan[n - 1].kind, file: plan[n - 1].file, failure },
            ),
            None => before,
        }
    }
}

/// The diagnostics of the checks, given what each gave.
pub fn collect_diagnostics(
    plan: &Vec<PlannedCheck>,
    outcomes: &Vec<Option<ProjectCheckFailure>>,
) -> (r: Vec<ProjectCheckDiagnostic>)
    requires
        plan.len() == outcomes.len(),
    ensures
        r.deep_view() == diagnostics_from(
            plan.deep_view(),
            outcomes.deep_view(),
            plan.len() as nat,
        ),
{
    let ghost p = plan.deep_view();
    let ghost o = outcomes.deep_view();
    let mut diagnostics: Vec<ProjectCheckDiagnostic> = Vec::new();
    let mut i: usize = 0;
    assert(diagnostics.deep_view() =~= Seq::<DiagnosticView>::empty());
    while i < plan.len()
        invariant
            i <= plan.len(),
            diagnostics.deep_view() == diagnostics_from(p, o, i as nat),
        decreases plan.len() - i,
    {
        assert(p[i as int] == plan[i as int].deep_view());
        assert(o[i as int] == outcomes[i as int].deep_view());
        if let Some(failure) = &outcomes[i] {
            push_item(
                &mut diagnostics,
                ProjectCheckDiagnostic {
                    kind: owned(plan[i].kind),
                    file: clone_option(&plan[i].file),
                    failure: failure.copy(),
                },
            );
        }
        i += 1;
    }
    diagnostics
}

/// Runs the checks of a project, in order, and gives what failed. A runner
/// that fails ends the run.
pub fn run_project_checks(project: &ProjectFacts, runner: &dyn ProjectCommandRunner) -> (r: Result<
    Vec<ProjectCheckDiagnostic>,
    BackendError,
>)
    ensures
        exists|outcomes: Vec<Option<ProjectCheckFailure>>| #[trigger]
            outcomes_given(runner, plan_of(project.deep_view()), outcomes@) && match r {
                Ok(diagnostics) => outcomes.len() == plan_of(project.deep_view()).len()
                    && diagnostics.deep_view() == diagnostics_from(
                    plan_of(project.deep_view()),
                    outcomes.deep_view(),
                    outcomes.len() as nat,
                ),
                Err(error) => outcomes.len() < plan_of(project.deep_view()).len() && may_end(
                    runner,
                    plan_of(project.deep_view())[outcomes.len() as int],
                    Err(error),
                ),
            },
{
    let plan = plan_project_checks(project);
    let ghost view = plan.deep_view();
    let mut outcomes: Vec<Option<ProjectCheckFailure>> = Vec::new();
    let mut i: usize = 0;
    assert(plan.deep_view().len() == plan.len());
    while i < plan.len()
        invariant
            i <= plan.len(),
            outcomes.len() == i,
            outcomes_given(runner, view, outcomes@),
        decreases plan.len() - i,
    {
        assert(view[i as int] == plan[i as int].deep_view());
        match runner.run(plan[i].command.as_str(), plan[i].cwd.as_str(), plan[i].timeout_seconds) {
            Ok(outcome) => {
                outcomes.push(outcome);
            },
            Err(error) => {
                return Err(error);
            },
        }
        i += 1;
    }
    assert(outcomes.deep_view().len() == plan.len());
    Ok(collect_diagnostics(&plan, &outcomes))
}

/// Whether a changed file is a Rust file.
pub open spec fn touches_rust(touched: Seq<TouchedView>) -> bool {
    exists|i: int|
        0 <= i < touched.len() && extension_in((#[trigger] touched[i]).name) == Some("rs"@)
}

fn has_rust_file(touched: &Vec<TouchedFile>) -> (r: bool)
    ensures
        r == touches_rust(touched.deep_view()),
{
    let ghost view = touched.deep_view();
    let mut i: usize = 0;
    while i < touched.len()
        invariant
            i <= touched.len(),
            forall|j: int|
                0 <= j < i ==> extension_in((#[trigger] view[j]).name) != Some("rs"@),
        decreases touched.len() - i,
    {
        assert(view[i as int] == touched[i as int].deep_view());
        if option_is(option_str(&extension(touched[i].name.as_str())), "rs") {
            assert(extension_in(view[i as int].name) == Some("rs"@));
            return true;
        }
        i += 1;
    }
    false
}

/// The check of a Rust project where a Rust file was changed.
pub fn build_project_check_plan(project: &ProjectFacts) -> (r: Option<PlannedCheck>)
    ensures
        r.deep_view() == if touches_rust(project.deep_view().touched) {
            rust_plan(project.deep_view())
        } else {
            None
        },
{
    if has_rust_file(&project.touched) {
        plan_rust_check(project)
    } else {
        None
    }
}

/// Runs the check of a Rust project where a Rust file was changed.
pub fn run_project_check(project: &ProjectFacts, runner: &dyn ProjectCommandRunner) -> (r: Result<
    Option<ProjectCheckFailure>,
    BackendError,
>)
    ensures
        !touches_rust(project.deep_view().touched) || rust_plan(project.deep_view()) is None ==> r
            == Ok::<Option<ProjectCheckFailure>, BackendError>(None),
        touches_rust(project.deep_view().touched) ==> (rust_plan(project.deep_view()) matches Some(
            check,
        ) ==> may_end(runner, check, r)),
{
    match build_project_check_plan(project) {
        Some(check) => runner.run(check.command.as_str(), check.cwd.as_str(), check.timeout_seconds),
        None => Ok(None),
    }
}

// Rendering.

/// An output with its name before it, unless it is blank.
pub open spec fn output_lines(name: Seq<char>, output: Seq<char>) -> Seq<Seq<char>> {
    if trimmed(output).len() == 0 {
        Seq::empty()
    } else {
        seq![name, trimmed_output(output)]
    }
}

/// The lines of a failure.
pub open spec fn failure_lines(
    kind: Option<Seq<char>>,
    file: Option<Seq<char>>,
    failure: FailureView,
) -> Seq<Seq<char>> {
    let code = match failure.exit_code {
        Some(code) => decimal_int(code as int),
        None => "unknown"@,
    };
    (match kind {
        Some(kind) => seq!["kind="@ + kind],
        None => Seq::empty(),
    }) + (match file {
        Some(file) => seq!["file="@ + file],
        None => Seq::empty(),
    }) + seq!["command="@ + failure.command, "cwd="@ + failure.cwd, "exit_code="@ + code]
        + output_lines("stderr:"@, failure.stderr) + output_lines("stdout:"@, failure.stdout)
}

fn push_field(lines: &mut Vec<String>, name: &str, value: &str)
    ensures
        final(lines).deep_view() == old(lines).deep_view().push(name@ + value@),
{
    let mut line = owned(name);
    line.append(value);
    push_item(lines, line);
}

fn push_output(lines: &mut Vec<String>, name: &str, output: &str)
    ensures
        final(lines).deep_view() == old(lines).deep_view() + output_lines(name@, output@),
{
    let ghost before = lines.deep_view();
    if trim(output).as_str().unicode_len() > 0 {
        push_item(lines, owned(name));
        push_item(lines, trim_output(output));
    }
    assert(lines.deep_view() =~= before + output_lines(name@, output@));
}

/// The lines of a failure as one text.
pub fn render_failure_fields(
    kind: Option<&str>,
    file: Option<&str>,
    failure: &ProjectCheckFailure,
) -> (r: String)
    ensures
        r@ == joined(
            failure_lines(kind.deep_view(), file.deep_view(), failure.deep_view()),
            "\n"@,
        ),
{
    let ghost view = failure.deep_view();
    let ghost all = failure_lines(kind.deep_view(), file.deep_view(), view);
    let mut lines: Vec<String> = Vec::new();
    assert(lines.deep_view() =~= Seq::<Seq<char>>::empty());
    if let Some(kind) = kind {
        push_field(&mut lines, "kind=", kind);
    }
    if let Some(file) = file {
        push_field(&mut lines, "file=", file);
    }
    push_field(&mut lines, "command=", failure.command.as_str());
    push_field(&mut lines, "cwd=", failure.cwd.as_str());
    let code = match failure.exit_code {
        Some(code) => decimal_signed(code),
        None => owned("unknown"),
    };
    push_field(&mut lines, "exit_code=", code.as_str());
    push_output(&mut lines, "stderr:", failure.stderr.as_str());
    push_output(&mut lines, "stdout:", failure.stdout.as_str());
    assert(lines.deep_view() =~= all);
    join(&lines, "\n")
}

/// A failure as text.
pub fn render_project_check_failure(failure: &ProjectCheckFailure) -> (r: String)
    ensures
        r@ == joined(failure_lines(None, None, failure.deep_view()), "\n"@),
{
    render_failure_fields(None, None, failure)
}

/// Diagnostic `i` as text, with its number where there are several.
pub open spec fn diagnostic_text(diagnostics: Seq<DiagnosticView>, i: int) -> Seq<char> {
    let d = diagnostics[i];
    let text = joined(failure_lines(Some(d.kind), d.file, d.failure), "\n"@);
    if diagnostics.len() == 1 {
        text
    } else {
        "check "@ + decimal((i + 1) as nat) + ":\n"@ + text
    }
}

/// The diagnostics as one text.
pub open spec fn diagnostics_text(diagnostics: Seq<DiagnosticView>) -> Seq<char> {
    joined(Seq::new(diagnostics.len(), |i: int| diagnostic_text(diagnostics, i)), "\n\n"@)
}

/// The diagnostics as one text.
pub fn render_project_check_failures(failures: &Vec<ProjectCheckDiagnostic>) -> (r: String)
    ensures
        r@ == diagnostics_text(failures.deep_view()),
{
    let ghost view = failures.deep_view();
    let ghost all = Seq::new(view.len(), |i: int| diagnostic_text(view, i));
    let mut texts: Vec<String> = Vec::new();
    let mut i: usize = 0;
    assert(texts.deep_view() =~= all.take(0));
    while i < failures.len()
        invariant
            i <= failures.len(),
            texts.deep_view() == all.take(i as int),
        decreases failures.len() - i,
    {
        let d = &failures[i];
        assert(view[i as int] == d.deep_view());
        let text = render_failure_fields(Some(d.kind.as_str()), option_str(&d.file), &d.failure);
        let text = if failures.len() == 1 {
            text
        } else {
            let mut numbered = owned("check ");
            push_decimal(&mut numbered, i as u128 + 1);
            numbered.append(":\n");
            numbered.append(text.as_str());
            numbered
        };
        push_item(&mut texts, text);
        i += 1;
        assert(texts.deep_view() =~= all.take(i as int));
    }
    assert(all.take(i as int) =~= all);
    join(&texts, "\n\n")
}

// Looking upward.

/// A search for a file in a directory and those around it.
#[derive(Debug)]
pub struct UpwardSearch {
    /// The directory looked at, if any is left.
    pub current: Option<String>,
    pub file_name: String,
}

impl UpwardSearch {
    /// A search that starts in a directory.
    pub fn new(start: &str, file_name: &str) -> (r: Self)
        ensures
            r.current.deep_view() == Some(start@),
            r.file_name@ == file_name@,
    {
        UpwardSearch { current: Some(owned(start)), file_name: owned(file_name) }
    }

    /// Where the file would be; none at the end. How paths are joined is up
    /// to the host.
    pub fn candidate(&self) -> (r: Option<String>)
        ensures
            match self.current {
                Some(dir) => r matches Some(path) && joins(dir@, self.file_name@, path@),
                None => r is None,
            },
    {
        match &self.current {
            Some(current) => Some(join_path(current.as_str(), self.file_name.as_str())),
            None => None,
        }
    }

    /// Goes on to the directory around the current one, if there is one. What
    /// that is, is up to the host.
    pub fn advance(&mut self)
        ensures
            final(self).file_name == old(self).file_name,
            match old(self).current {
                Some(dir) => is_parent(dir@, final(self).current.deep_view()),
                None => final(self).current is None,
            },
    {
        let next = match &self.current {
            Some(current) => parent(current.as_str()),
            None => None,
        };
        self.current = next;
    }
}

// Laws.

/// No more files are checked one by one than allowed, each with a time limit
/// of at most two minutes.
pub proof fn law_plan_is_bounded(project: ProjectView)
    ensures
        plan_of(project).len() <= MAX_CPP_CHECK_FILES + 1,
        forall|i: int|
            0 <= i < plan_of(project).len() ==> 1 <= (#[trigger] plan_of(
                project,
            )[i]).timeout_seconds <= 120,
{
}

/// A project that asks for nothing is left alone.
pub proof fn law_nothing_without_configuration(project: ProjectView)
    requires
        project.project_check is None,
        project.cpp_check is None,
    ensures
        plan_of(project).len() == 0,
{
}

/// A project whose changed files concern no check is left alone.
pub proof fn law_nothing_for_unrelated_changes(project: ProjectView)
    requires
        project.project_check matches Some(config) ==> !any_touched(
            project.touched,
            patterns_used(config.changed_files, rust_patterns()),
        ),
        project.cpp_check matches Some(config) ==> !any_touched(
            project.touched,
            patterns_used(config.changed_files, cpp_patterns()),
        ),
    ensures
        plan_of(project).len() == 0,
{
}

proof fn lemma_no_quote_replaced(value: Seq<char>)
    requires
        !value.contains('"'),
    ensures
        replaced(value, "\""@, "\\\""@) == value,
    decreases value.len(),
{
    reveal_strlit("\"");
    if value.len() > 0 {
        assert(value[0] != '"');
        assert(!crate::text::occurs_at(value, "\""@, 0)) by {
            if crate::text::occurs_at(value, "\""@, 0) {
                assert(value.subrange(0, 1)[0] == "\""@[0]);
            }
        }
        let rest = value.skip(1);
        assert(!rest.contains('"')) by {
            if rest.contains('"') {
                let i = rest.index_of('"');
                assert(value[i + 1] == '"');
            }
        }
        lemma_no_quote_replaced(rest);
        assert(seq![value[0]] + rest =~= value);
    }
}

proof fn lemma_quoted_run(value: Seq<char>, tail: Seq<char>, current: Seq<char>)
    requires
        !value.contains('"'),
    ensures
        arguments_from(value + seq!['"'] + tail, Some('"'), current) == arguments_from(
            tail,
            None,
            current + value,
        ),
    decreases value.len(),
{
    let s = value + seq!['"'] + tail;
    if value.len() == 0 {
        assert(s[0] == '"');
        assert(s.skip(1) =~= tail);
        assert(current + value =~= current);
    } else {
        assert(s[0] == value[0]);
        assert(value[0] != '"');
        let rest = value.skip(1);
        assert(!rest.contains('"')) by {
            if rest.contains('"') {
                let i = rest.index_of('"');
                assert(value[i + 1] == '"');
            }
        }
        assert(s.skip(1) =~= rest + seq!['"'] + tail);
        lemma_quoted_run(rest, tail, current.push(value[0]));
        assert(current.push(value[0]) + rest =~= current + value);
    }
}

proof fn lemma_plain_run(value: Seq<char>, current: Seq<char>)
    requires
        !value.contains('"'),
        !value.contains('\''),
        !has_space(value),
    ensures
        arguments_from(value, None, current) == arguments_from(
            Seq::empty(),
            None,
            current + value,
        ),
    decreases value.len(),
{
    if value.len() == 0 {
        assert(value =~= Seq::<char>::empty());
        assert(current + value =~= current);
    } else {
        assert(value[0] != '"' && value[0] != '\'' && !whitespace(value[0]));
        let rest = value.skip(1);
        assert forall|i: int| 0 <= i < rest.len() implies rest[i] != '"' && rest[i] != '\''
            && !whitespace(#[trigger] rest[i]) by {
            assert(rest[i] == value[i + 1]);
            assert(value.contains(value[i + 1]));
        }
        lemma_plain_run(rest, current.push(value[0]));
        assert(current.push(value[0]) + rest =~= current + value);
    }
}

/// A value that is not empty and holds no quotes is one argument of the
/// command, whatever white space it holds.
pub proof fn law_value_is_one_argument(value: Seq<char>)
    requires
        value.len() > 0,
        !value.contains('"'),
        !value.contains('\''),
    ensures
        arguments_of(quoted_value(value)) == seq![value],
{
    reveal_strlit("\"");
    if has_space(value) {
        lemma_no_quote_replaced(value);
        let s = quoted_value(value);
        assert(s =~= seq!['"'] + (value + seq!['"'] + Seq::<char>::empty()));
        assert(s[0] == '"');
        assert(s.skip(1) =~= value + seq!['"'] + Seq::<char>::empty());
        lemma_quoted_run(value, Seq::empty(), Seq::empty());
        assert(Seq::<char>::empty() + value =~= value);
        assert(arguments_of(s) == arguments_from(Seq::empty(), None, value));
    } else {
        lemma_plain_run(value, Seq::empty());
        assert(Seq::<char>::empty() + value =~= value);
    }
}

} // verus!
