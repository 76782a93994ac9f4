use slowcatch::backends::directory::DirectoryEntry;
use slowcatch::backends::everything::{FileFinder, FindQuery};
use slowcatch::backends::inspect_file::inspect_file_structured;
use slowcatch::backends::projection::{FileFacts, FileMetadata};
use slowcatch::backends::slice::{head_lines, slice_lines, tail_lines};
use slowcatch::backends::walk::{grep, grep_context, Visit};
use slowcatch::error::BackendError;
use slowcatch::integrations::codex_hook::{
    handle_hook_json, hook_step, hook_timeout, parse_hook_input, render_edit_report,
    render_fast_result, render_prompt_context, HookPlan, HookRequest, HookStep,
};
use slowcatch::integrations::execution::{Answer, PathKind, Request};
use slowcatch::integrations::hook_result::{
    normalize_body_and_count_items, HookResult, HookStatus,
};
use slowcatch::integrations::post_edit_check::{check_apply_patch_command, check_file};
use slowcatch::integrations::post_edit_state::{
    read_touched_paths, touched_entries, PostEditEntry,
};
use slowcatch::integrations::project_check::{
    run_project_checks, CppCheckConfig, ProjectCheckConfig, ProjectCheckFailure,
    ProjectCommandRunner, ProjectFacts, TouchedFile,
};
use slowcatch::json::split_json;
use slowcatch::prompt_enrichment::enrich_prompt;
use slowcatch::shell_parse::{FastOperation, ReadWindow};
use slowcatch::unknown_log::{unknown_log_entry, UnknownLogEntry};

// A host in memory.

const NOW: u64 = 1_700_000_000;

struct MockFinder;

impl FileFinder for MockFinder {
    fn find(&self, _query: &FindQuery) -> Result<Vec<String>, BackendError> {
        Ok(vec!["C:\\repo\\main.rs".to_string()])
    }
}

struct FailingFinder;

impl FileFinder for FailingFinder {
    fn find(&self, _query: &FindQuery) -> Result<Vec<String>, BackendError> {
        Err(BackendError::new("backend unavailable"))
    }
}

struct FixedFinder {
    paths: Vec<String>,
}

impl FileFinder for FixedFinder {
    fn find(&self, _query: &FindQuery) -> Result<Vec<String>, BackendError> {
        Ok(self.paths.clone())
    }
}

struct MockProjectRunner {
    result: Option<ProjectCheckFailure>,
}

impl ProjectCommandRunner for MockProjectRunner {
    fn run(
        &self,
        _command: &str,
        _cwd: &str,
        _timeout_seconds: u64,
    ) -> Result<Option<ProjectCheckFailure>, BackendError> {
        Ok(self.result.clone())
    }
}

struct Host {
    finder: Box<dyn FileFinder>,
    files: Vec<(String, Vec<u8>)>,
    folders: Vec<String>,
    state: Vec<PostEditEntry>,
    project_check: Option<ProjectCheckConfig>,
    cpp_check: Option<CppCheckConfig>,
    runner: MockProjectRunner,
    log: Vec<UnknownLogEntry>,
    log_is_broken: bool,
}

fn host(finder: Box<dyn FileFinder>) -> Host {
    Host {
        finder,
        files: Vec::new(),
        folders: vec!["/work".to_string()],
        state: Vec::new(),
        project_check: None,
        cpp_check: None,
        runner: MockProjectRunner { result: None },
        log: Vec::new(),
        log_is_broken: false,
    }
}

impl Host {
    fn write(&mut self, path: &str, text: &str) {
        self.files.push((path.to_string(), text.as_bytes().to_vec()));
    }

    fn bytes(&self, path: &str) -> Option<Vec<u8>> {
        self.files.iter().find(|(name, _)| name == path).map(|(_, bytes)| bytes.clone())
    }

    fn is_folder(&self, path: &str) -> bool {
        self.folders.iter().any(|folder| folder == path)
    }

    fn metadata(&self, path: &str) -> Option<FileMetadata> {
        match self.bytes(path) {
            Some(bytes) => {
                Some(FileMetadata { length: bytes.len() as u64, modified: Some(1), is_dir: false })
            }
            None if self.is_folder(path) => {
                Some(FileMetadata { length: 0, modified: Some(1), is_dir: true })
            }
            None => None,
        }
    }

    fn lines(&self, path: &str) -> Option<Vec<String>> {
        let text = String::from_utf8(self.bytes(path)?).ok()?;
        Some(text.lines().map(|line| line.to_string()).collect())
    }

    fn entries(&self, root: &str) -> Vec<DirectoryEntry> {
        let mut paths: Vec<String> = self.files.iter().map(|(path, _)| path.clone()).collect();
        paths.extend(self.folders.iter().cloned());
        let prefix = format!("{root}/");
        let mut entries: Vec<DirectoryEntry> = Vec::new();
        for path in paths {
            if let Some(name) = path.strip_prefix(&prefix) {
                if name.contains('/') {
                    continue;
                }
                let metadata = self.metadata(&path);
                let is_dir = self.is_folder(&path);
                entries.push(DirectoryEntry {
                    name: name.to_string(),
                    path: path.clone(),
                    is_file: !is_dir,
                    is_dir,
                    metadata,
                });
            }
        }
        entries
    }

    fn visit(&self, path: &str) -> Visit {
        if self.is_folder(path) {
            let entries = self.entries(path).into_iter().map(|entry| entry.path).collect();
            return Visit::Directory { entries, failure: None };
        }
        match self.bytes(path) {
            Some(bytes) => match String::from_utf8(bytes) {
                Ok(text) => Visit::File { text },
                Err(_) => Visit::Other,
            },
            None => Visit::Missing,
        }
    }

    fn files_of(&self, paths: Vec<String>) -> Answer {
        Answer::Files(
            paths.into_iter().map(|path| FileFacts::new(&path, self.metadata(&path))).collect(),
        )
    }

    fn found_files(&self, query: &FindQuery) -> Answer {
        match self.finder.find(query) {
            Ok(paths) => self.files_of(paths),
            Err(error) => Answer::Failed(error.message),
        }
    }

    fn run_operation(&self, operation: &FastOperation) -> Answer {
        match operation {
            FastOperation::Find(query) => match self.finder.find(query) {
                Ok(paths) => Answer::Lines(paths),
                Err(error) => Answer::Failed(error.message),
            },
            FastOperation::FindProjection(find) => self.found_files(&find.query),
            FastOperation::FindPipeline(find) => self.found_files(&find.query),
            FastOperation::FindMeasure(find) => self.found_files(&find.query),
            FastOperation::DirectProjection { paths, .. } => self.files_of(paths.clone()),
            FastOperation::Grep(query) => {
                let mut walk = grep(query);
                while let Some(path) = walk.next_path(query) {
                    walk.visit(query, self.visit(&path));
                }
                match walk.finish(query) {
                    Ok(matches) => Answer::Matches(matches),
                    Err(error) => Answer::Failed(error.message),
                }
            }
            FastOperation::GrepContext(query) => {
                let mut walk = match grep_context(query) {
                    Ok(walk) => walk,
                    Err(error) => return Answer::Failed(error.message),
                };
                while let Some(path) = walk.next_path(query) {
                    walk.visit(query, self.visit(&path));
                }
                match walk.finish(query) {
                    Ok(text) => Answer::Text(text),
                    Err(error) => Answer::Failed(error.message),
                }
            }
            FastOperation::InspectFile { path, .. } => {
                if self.metadata(path).is_none() {
                    return Answer::Failed("not found".to_string());
                }
                let bytes = self.bytes(path).unwrap_or_default();
                let is_file = !self.is_folder(path);
                match inspect_file_structured(path, is_file, bytes.len() as u64, bytes) {
                    Ok(inspection) => Answer::Inspection(inspection),
                    Err(error) => Answer::Failed(error.to_error().message),
                }
            }
            FastOperation::ReadLines { path, window, count } => match self.lines(path) {
                Some(lines) => Answer::Lines(match window {
                    ReadWindow::Head => head_lines(&lines, *count),
                    ReadWindow::Tail => tail_lines(&lines, *count),
                }),
                None => Answer::Failed("not found".to_string()),
            },
            FastOperation::Slice { path, skip, first } => match self.lines(path) {
                Some(lines) => Answer::Lines(slice_lines(&lines, *skip, *first)),
                None => Answer::Failed("not found".to_string()),
            },
            FastOperation::ListDirectory(list) => Answer::Entries {
                is_dir: self.is_folder(&list.root),
                entries: self.entries(&list.root),
            },
            FastOperation::ListDirectoryPipeline(pipeline) => Answer::Entries {
                is_dir: self.is_folder(&pipeline.list.root),
                entries: self.entries(&pipeline.list.root),
            },
            FastOperation::CommandList(_) | FastOperation::MiniScript(_) => unreachable!(),
        }
    }

    fn project(&self, cwd: &str, touched: &Vec<String>) -> ProjectFacts {
        let has = |name: &str| self.bytes(&format!("{cwd}/{name}")).is_some();
        let mut files: Vec<TouchedFile> = Vec::new();
        for path in touched {
            let mut file = TouchedFile::new(path, cwd);
            file.is_file = self.bytes(&file.full_path).is_some();
            files.push(file);
        }
        let dir = match &self.cpp_check {
            Some(config) => config.compile_commands_dir.clone().unwrap_or(".".to_string()),
            None => ".".to_string(),
        };
        ProjectFacts {
            project_check: self.project_check.clone(),
            cpp_check: self.cpp_check.clone(),
            config_root: if has(".slowcatch.toml") { Some(cwd.to_string()) } else { None },
            cargo_root: if has("Cargo.toml") { Some(cwd.to_string()) } else { None },
            compile_commands_dir: format!("{cwd}/{dir}"),
            has_compile_commands: has(&format!("{dir}/compile_commands.json")),
            touched: files,
        }
    }

    fn perform(&mut self, request: &HookRequest) -> Answer {
        match request {
            HookRequest::Enrich { prompt } => {
                Answer::Context(enrich_prompt(prompt, self.finder.as_ref(), false))
            }
            HookRequest::ReadTouched { session_id, turn_id } => {
                Answer::Lines(read_touched_paths(&self.state, *session_id, *turn_id, NOW))
            }
            HookRequest::CheckProject { cwd, touched } => {
                match run_project_checks(&self.project(cwd, touched), &self.runner) {
                    Ok(diagnostics) => Answer::Diagnostics(diagnostics),
                    Err(error) => Answer::Failed(error.message),
                }
            }
            HookRequest::RecordTouched { session_id, turn_id, cwd, paths } => {
                self.state.extend(touched_entries(*session_id, *turn_id, *cwd, paths, NOW));
                Answer::Noted
            }
            HookRequest::CheckFiles { paths } => {
                let mut lists = Vec::new();
                for path in paths.iter() {
                    let bytes = self.bytes(path).unwrap_or_default();
                    let is_file = self.bytes(path).is_some();
                    lists.push(check_file(path, is_file, bytes.len() as u64, bytes));
                }
                Answer::Report(check_apply_patch_command(lists))
            }
            HookRequest::Run(Request::Operation(operation)) => self.run_operation(operation),
            HookRequest::Run(Request::External(external)) => {
                Answer::Text(format!("output of {}", external.args.join(" ")))
            }
            HookRequest::Run(Request::TestPath(path)) => {
                Answer::Found(self.metadata(path).map(|metadata| PathKind {
                    is_file: !metadata.is_dir,
                    is_dir: metadata.is_dir,
                }))
            }
            HookRequest::Log { .. } if self.log_is_broken => {
                Answer::Failed("is a directory".to_string())
            }
            HookRequest::Log { command, detail, context } => {
                self.log.push(unknown_log_entry(command, detail, context, 0));
                Answer::Noted
            }
        }
    }

    fn handle(&mut self, input: &str) -> Option<String> {
        let plan = handle_hook_json(input).unwrap();
        let mut answers: Vec<Answer> = Vec::new();
        loop {
            let answer = match hook_step(&plan, &answers) {
                HookStep::Ask(request) => self.perform(&request),
                HookStep::Done(output) => return output,
            };
            answers.push(answer);
        }
    }
}

fn quoted(text: &str) -> String {
    serde_json::to_string(text).unwrap()
}

fn shell_input(cwd: &str, command: &str) -> String {
    format!(
        "{{\"cwd\":{},\"tool_input\":{{\"command\":{}}}}}",
        quoted(cwd),
        quoted(command)
    )
}

fn patch_input(path: &str, response: &str) -> String {
    let command = format!("*** Begin Patch\n*** Update File: {path}\n*** End Patch");
    format!(
        "{{\"hook_event_name\":\"PostToolUse\",\"tool_name\":\"apply_patch\",\"session_id\":\"s1\",\"turn_id\":\"t1\",\"cwd\":\"/work\",\"tool_input\":{{\"command\":{}}},\"tool_response\":{}}}",
        quoted(&command),
        response
    )
}

const STOP: &str =
    "{\"hook_event_name\":\"Stop\",\"session_id\":\"s1\",\"turn_id\":\"t1\",\"cwd\":\"/work\"}";

const PATCHED: &str = "{\"output\":\"Success. Updated the following files\"}";

// Commands that are taken over.

#[test]
fn hook_success_blocks_with_fast_path_output() {
    let input = r#"{"cwd":"C:\\repo","tool_input":{"command":"Get-ChildItem C:\\repo -Recurse -Filter *.rs"}}"#;
    let output = host(Box::new(MockFinder)).handle(input).unwrap();

    assert!(output.contains("\"decision\":\"block\""));
    assert!(output.contains("FAST_PATH_SUCCESS"));
    assert!(output.contains("C:\\\\repo\\\\main.rs"));
}

#[test]
fn hook_unsupported_command_fails_open() {
    let input = r#"{"cwd":"C:\\repo","tool_input":{"command":"Get-Content file.txt"}}"#;
    let output = host(Box::new(MockFinder)).handle(input);

    assert!(output.is_none());
}

#[test]
fn hook_unknown_candidate_logs_and_fails_open() {
    let input = r#"{"session_id":"s1","turn_id":"t1","model":"m1","cwd":"C:\\repo","tool_input":{"command":"gci C:\\repo -Recurse -Filter *.rs | Where-Object Name -like '*main*' | Select-String needle"}}"#;
    let mut host = host(Box::new(MockFinder));

    assert!(host.handle(input).is_none());

    assert_eq!(host.log.len(), 1);
    let entry = &host.log[0];
    assert_eq!(entry.source, "codex_hook");
    assert_eq!(entry.session_id.as_deref(), Some("s1"));
    assert_eq!(entry.turn_id.as_deref(), Some("t1"));
    assert_eq!(entry.model.as_deref(), Some("m1"));
    assert!(entry.command.contains("Where-Object"));
    assert_eq!(entry.first_command.as_deref(), Some("gci"));
    assert!(entry.normalized_shape.contains("where-object"));
}

#[test]
fn hook_pass_through_commands_do_not_log() {
    let mut host = host(Box::new(MockFinder));

    for command in ["git status", "Remove-Item C:\\repo -Recurse"] {
        let input = format!(
            r#"{{"cwd":"C:\\repo","tool_input":{{"command":"{}"}}}}"#,
            command.replace('\\', "\\\\")
        );
        assert!(host.handle(&input).is_none(), "{command}");
    }

    assert!(host.log.is_empty());
}

#[test]
fn hook_log_failure_still_fails_open() {
    let input = r#"{"cwd":"C:\\repo","tool_input":{"command":"Get-Content C:\\repo\\file.txt | Select-String -Pattern needle -Context 0,1"}}"#;
    let mut host = host(Box::new(MockFinder));
    host.log_is_broken = true;
    let output = host.handle(input);

    assert!(output.is_none());
    assert!(host.log.is_empty());
}

#[test]
fn failure_to_note_a_command_is_ignored() {
    for command in [
        "gci C:\\repo -Recurse -Filter *.rs | Where-Object Name -like '*main*' | Select-String x",
        "Get-Content /work/missing.txt -TotalCount 2",
    ] {
        let plan = handle_hook_json(&shell_input("/work", command)).unwrap();
        let mut host = host(Box::new(FailingFinder));
        host.log_is_broken = true;
        let mut answers: Vec<Answer> = Vec::new();
        let mut asked_to_log = false;
        loop {
            match hook_step(&plan, &answers) {
                HookStep::Ask(request) => {
                    asked_to_log = asked_to_log || matches!(request, HookRequest::Log { .. });
                    answers.push(host.perform(&request));
                }
                HookStep::Done(output) => {
                    assert!(output.is_none(), "{command}");
                    break;
                }
            }
        }
        assert!(asked_to_log, "{command}");
    }
}

#[test]
fn hook_operation_timeout_logs_and_fails_open() {
    let input = r#"{"cwd":"C:\\repo","tool_input":{"command":"Get-ChildItem C:\\repo -Recurse -Filter *.rs"}}"#;
    let plan = handle_hook_json(input).unwrap();
    let mut answers = vec![Answer::Failed(hook_timeout(50).message)];

    match hook_step(&plan, &answers) {
        HookStep::Ask(HookRequest::Log { detail, .. }) => {
            assert!(detail.reason.contains("hook operation timed out"));
            assert!(detail.reason.ends_with("after 50ms"));
        }
        other => panic!("unexpected step: {other:?}"),
    }
    answers.push(Answer::Noted);
    assert!(matches!(hook_step(&plan, &answers), HookStep::Done(None)));
}

#[test]
fn hook_backend_failure_logs_and_fails_open() {
    let input = r#"{"cwd":"C:\\repo","tool_input":{"command":"Get-ChildItem C:\\repo -Recurse -Filter *.rs"}}"#;
    let mut host = host(Box::new(FailingFinder));

    assert!(host.handle(input).is_none());

    let entry = &host.log[0];
    assert_eq!(entry.first_command.as_deref(), Some("get-childitem"));
    assert!(entry.reason.contains("fast_path_backend_failure:find"));
    assert_eq!(entry.reason, "fast_path_backend_failure:find: backend unavailable");
    assert_eq!(entry.normalized_shape, "fast_path_failure:find");
}

#[test]
fn hook_inspect_file_blocks_with_numbered_output() {
    let mut host = host(Box::new(MockFinder));
    host.write("/work/sample.rs", "fn main() {}\n");

    let output =
        host.handle(&shell_input("/work", "Get-Content -Raw '/work/sample.rs'")).unwrap();

    assert!(output.contains("FAST_PATH_SUCCESS"));
    assert!(output.contains("slowcatch_result v1 text"));
    assert!(output.contains("kind=inspect_file status=ok"));
    assert!(output.contains("file_kind=code"));
    assert!(output.contains("render=full"));
    assert!(output.contains("line_numbers=original"));
    assert!(output.contains("line_format=source:L<n>| summary:L<n> <type>|"));
    assert!(output.contains("L1 | fn main() {}"));
}

#[test]
fn hook_grep_context_blocks_with_context_output() {
    let mut host = host(Box::new(MockFinder));
    host.write("/work/sample.txt", "before\nneedle\nnext\n");

    let command = "Select-String -Path '/work/sample.txt' -Pattern needle -Context 1,1 -SimpleMatch";
    let output = host.handle(&shell_input("/work", command)).unwrap();

    assert!(output.contains("FAST_PATH_SUCCESS"));
    assert!(output.contains("L1:before: before"));
    assert!(output.contains("L2:match: needle"));
}

#[test]
fn hook_get_content_totalcount_blocks_with_head_lines() {
    let mut host = host(Box::new(MockFinder));
    host.write("/work/sample.txt", "one\ntwo\nthree\n");

    let command = "Get-Content -LiteralPath '/work/sample.txt' -TotalCount 2";
    let output = host.handle(&shell_input("/work", command)).unwrap();

    assert!(output.contains("FAST_PATH_SUCCESS"));
    assert!(output.contains("one\\ntwo"));
    assert!(!output.contains("three"));
}

#[test]
fn hook_get_content_tail_blocks_with_tail_lines() {
    let mut host = host(Box::new(MockFinder));
    host.write("/work/sample.txt", "one\ntwo\nthree\n");

    let command = "Get-Content -Path '/work/sample.txt' -Tail 2 -ErrorAction SilentlyContinue";
    let output = host.handle(&shell_input("/work", command)).unwrap();

    assert!(output.contains("FAST_PATH_SUCCESS"));
    assert!(output.contains("two\\nthree"));
    assert!(!output.contains("one\\n"));
}

#[test]
fn hook_missing_bounded_read_fails_open() {
    let mut host = host(Box::new(MockFinder));

    let command = "Get-Content -LiteralPath '/work/missing.txt' -TotalCount 2";
    let output = host.handle(&shell_input("/work", command));

    assert!(output.is_none());
}

#[test]
fn hook_get_child_item_force_name_blocks_with_names() {
    let mut host = host(Box::new(MockFinder));
    host.write("/work/a.txt", "a");
    host.write("/work/b.txt", "b");

    let output = host.handle(&shell_input("/work", "Get-ChildItem -Force -Name")).unwrap();

    assert!(output.contains("FAST_PATH_SUCCESS"));
    assert!(output.contains("a.txt"));
    assert!(output.contains("b.txt"));
    assert!(!output.contains("/work"));
}

#[test]
fn hook_empty_directory_listing_uses_standard_empty_result() {
    let mut host = host(Box::new(MockFinder));

    let command = "Get-ChildItem -Force -Filter '*.missing'";
    let output = host.handle(&shell_input("/work", command)).unwrap();

    assert!(output.contains("slowcatch_result v1 text"));
    assert!(output.contains("kind=list_directory status=empty items=0"));
    assert!(output.contains("no results"));
}

#[test]
fn hook_get_child_item_literalpath_filter_blocks_with_paths() {
    let mut host = host(Box::new(MockFinder));
    host.write("/work/keep.uid", "uid");
    host.write("/work/skip.txt", "txt");

    let command = "Get-ChildItem -LiteralPath '/work' -Filter '*.uid'";
    let output = host.handle(&shell_input("C:\\fallback", command)).unwrap();

    assert!(output.contains("FAST_PATH_SUCCESS"));
    assert!(output.contains("/work/keep.uid"));
    assert!(!output.contains("skip.txt"));
}

#[test]
fn hook_directory_match_pipeline_blocks_with_metadata() {
    let mut host = host(Box::new(MockFinder));
    host.folders.push("/work/View3D".to_string());
    host.folders.push("/work/Other".to_string());

    let command = "Get-ChildItem -Path '/work' -Directory -ErrorAction SilentlyContinue | Where-Object { $_.Name -match 'View3D' } | Select-Object FullName,LastWriteTime";
    let output = host.handle(&shell_input("C:\\fallback", command)).unwrap();

    assert!(output.contains("FAST_PATH_SUCCESS"));
    assert!(output.contains("FullName="));
    assert!(output.contains("View3D"));
    assert!(!output.contains("Other"));
}

#[test]
fn hook_find_projection_blocks_with_projected_paths() {
    let input = r#"{"cwd":"C:\\repo","tool_input":{"command":"Get-ChildItem -Recurse -Filter *.rs | Select-Object -ExpandProperty FullName"}}"#;

    let output = host(Box::new(MockFinder)).handle(input).unwrap();

    assert!(output.contains("FAST_PATH_SUCCESS"));
    assert!(output.contains("C:\\\\repo\\\\main.rs"));
}

#[test]
fn hook_find_pipeline_filters_sorts_limits_and_projects() {
    let mut host = host(Box::new(FixedFinder {
        paths: vec![
            "/work/old.rs".to_string(),
            "/work/note.txt".to_string(),
            "/work/new.rs".to_string(),
        ],
    }));
    host.write("/work/old.rs", "old");
    host.write("/work/new.rs", "new file with more bytes");
    host.write("/work/note.txt", "note");

    let command = "Get-ChildItem '/work' -Recurse -Filter * | Where-Object Name -like *.rs | Sort-Object Length -Descending | Select-Object -First 1 FullName";
    let output = host.handle(&shell_input("/work", command)).unwrap();

    assert!(output.contains("FAST_PATH_SUCCESS"));
    assert!(output.contains("/work/new.rs"));
    assert!(!output.contains("/work/old.rs"));
}

#[test]
fn hook_find_measure_counts_filtered_paths() {
    let mut host = host(Box::new(FixedFinder {
        paths: vec!["/work/main.rs".to_string(), "/work/note.txt".to_string()],
    }));
    host.write("/work/main.rs", "rust");
    host.write("/work/note.txt", "text");

    let command = "Get-ChildItem '/work' -Recurse | Where-Object Extension -eq .rs | Measure-Object";
    let output = host.handle(&shell_input("/work", command)).unwrap();

    assert!(output.contains("FAST_PATH_SUCCESS"));
    assert!(output.contains("Count=1"));
}

#[test]
fn hook_command_list_uses_compact_segment_headers() {
    let mut host = host(Box::new(MockFinder));
    host.write("/work/Cargo.toml", "[package]\n");

    let command = "Get-ChildItem -LiteralPath '/work' -Filter Cargo.toml; git log --oneline -n 1";
    let output = host.handle(&shell_input("/work", command)).unwrap();

    assert!(output.contains("kind=command_list status=ok items=2"));
    assert!(output.contains("segment 1 kind=list_directory status=ok items=1"));
    assert!(output.contains("segment 2 kind=readonly_external status=ok"));
    assert!(!output.contains("### segment"));
}

#[test]
fn hook_normal_output_does_not_include_debug_fields() {
    let input = r#"{"cwd":"C:\\repo","tool_input":{"command":"Get-ChildItem C:\\repo -Recurse -Filter *.rs"}}"#;
    let output = host(Box::new(MockFinder)).handle(input).unwrap();

    for field in ["command=", "parser=", "backend=", "detector=", "debug=1"] {
        assert!(!output.contains(field), "{field} leaked into normal output");
    }
}

// Prompts.

#[test]
fn hook_user_prompt_submit_adds_uuid_lookup_context() {
    let mut host = host(Box::new(FixedFinder {
        paths: vec!["C:\\repo\\a-019e0b7c-4f63-7bc1-8d24-0586a9098481.jsonl".to_string()],
    }));
    let input = r#"{"hook_event_name":"UserPromptSubmit","session_id":"s1","turn_id":"t1","model":"m1","cwd":"C:\\repo","prompt":"please inspect 019e0b7c-4f63-7bc1-8d24-0586a9098481"}"#;

    let output = host.handle(input).unwrap();

    assert!(output.contains("\"hookEventName\":\"UserPromptSubmit\""));
    assert!(output.contains("slowcatch_refs v1 paths_only"));
    assert!(output.contains("uuid:019e0b7c-4f63-7bc1-8d24-0586a9098481 [1/1]"));
    assert!(!output.contains("detector=uuid_path_lookup"));
    assert!(output.contains("C:\\\\repo\\\\a-019e0b7c-4f63-7bc1-8d24-0586a9098481.jsonl"));
}

// Edits.

#[test]
fn hook_post_tool_use_apply_patch_clean_file_returns_none() {
    let mut host = host(Box::new(MockFinder));
    host.write("/work/clean.rs", "fn main() {\n    println!(\"ok\");\n}\n");

    assert!(host.handle(&patch_input("/work/clean.rs", PATCHED)).is_none());
}

#[test]
fn hook_post_tool_use_records_touched_paths() {
    let mut host = host(Box::new(MockFinder));
    host.write("/work/clean.rs", "fn main() {}\n");

    assert!(host.handle(&patch_input("/work/clean.rs", PATCHED)).is_none());

    let paths = read_touched_paths(&host.state, Some("s1"), Some("t1"), NOW);
    assert_eq!(paths, vec!["/work/clean.rs"]);
}

#[test]
fn hook_post_tool_use_apply_patch_with_conflict_marker_blocks() {
    let mut host = host(Box::new(MockFinder));
    host.write("/work/conflict.rs", "fn main() {\n<<<<<<< ours\n}\n");

    let output = host.handle(&patch_input("/work/conflict.rs", PATCHED)).unwrap();

    assert!(output.contains("\"decision\":\"block\""));
    assert!(output.contains("\"hookEventName\":\"PostToolUse\""));
    assert!(output.contains("slowcatch_post_edit_check v1 issues"));
    assert!(output.contains("git conflict marker"));
}

#[test]
fn hook_post_tool_use_apply_patch_failure_fails_open() {
    let mut host = host(Box::new(MockFinder));
    host.write("/work/conflict.rs", "fn main() {\n<<<<<<< ours\n}\n");

    assert!(host.handle(&patch_input("/work/conflict.rs", "{\"error\":\"patch failed\"}")).is_none());
}

// Ends of turns.

fn rust_config() -> ProjectCheckConfig {
    ProjectCheckConfig {
        enabled: true,
        kind: "rust".to_string(),
        command: None,
        timeout_seconds: None,
        trigger: None,
        changed_files: None,
    }
}

fn cpp_config() -> CppCheckConfig {
    CppCheckConfig {
        enabled: true,
        kind: "cpp".to_string(),
        command: None,
        timeout_seconds: None,
        trigger: None,
        changed_files: None,
        compile_commands_dir: Some("build".to_string()),
    }
}

fn failure(command: &str, code: i32, stderr: &str) -> Option<ProjectCheckFailure> {
    Some(ProjectCheckFailure {
        command: command.to_string(),
        cwd: "/work".to_string(),
        exit_code: Some(code),
        stdout: String::new(),
        stderr: stderr.to_string(),
    })
}

fn touch(host: &mut Host, paths: &[&str]) {
    let paths: Vec<String> = paths.iter().map(|path| path.to_string()).collect();
    host.state.extend(touched_entries(Some("s1"), Some("t1"), Some("/work"), &paths, NOW));
}

fn rust_host() -> Host {
    let mut host = host(Box::new(MockFinder));
    host.write("/work/Cargo.toml", "[package]\nname='x'\n");
    host.write("/work/.slowcatch.toml", "");
    host.project_check = Some(rust_config());
    touch(&mut host, &["/work/src/lib.rs"]);
    host
}

fn cpp_host() -> Host {
    let mut host = host(Box::new(MockFinder));
    host.write("/work/build/compile_commands.json", "[]");
    host.write("/work/main.cpp", "int main() { return missing; }\n");
    host.write("/work/.slowcatch.toml", "");
    host.cpp_check = Some(cpp_config());
    touch(&mut host, &["/work/main.cpp"]);
    host
}

#[test]
fn hook_stop_with_no_state_returns_none() {
    assert!(host(Box::new(MockFinder)).handle(STOP).is_none());
}

#[test]
fn hook_stop_with_failing_project_check_blocks() {
    let mut host = rust_host();
    host.project_check = Some(ProjectCheckConfig {
        command: Some("cargo check -q".to_string()),
        timeout_seconds: Some(15),
        trigger: Some("stop".to_string()),
        changed_files: Some(vec!["*.rs".to_string()]),
        ..rust_config()
    });
    host.runner.result = failure("cargo check -q", 101, "error[E0425]: cannot find value");

    let output = host.handle(STOP).unwrap();

    assert!(output.contains("\"decision\":\"block\""));
    assert!(output.contains("slowcatch_project_check v1 failed"));
    assert!(output.contains("error[E0425]"));
}

#[test]
fn hook_stop_with_passing_project_check_returns_none() {
    assert!(rust_host().handle(STOP).is_none());
}

#[test]
fn hook_stop_with_failing_cpp_check_blocks() {
    let mut host = cpp_host();
    host.cpp_check = Some(CppCheckConfig {
        command: Some(
            "clangd --check={file} --compile-commands-dir={compile_commands_dir}".to_string(),
        ),
        timeout_seconds: Some(20),
        trigger: Some("stop".to_string()),
        changed_files: Some(vec!["*.cpp".to_string()]),
        ..cpp_config()
    });
    host.runner.result =
        failure("clangd --check=main.cpp", 1, "use of undeclared identifier 'missing'");

    let output = host.handle(STOP).unwrap();

    assert!(output.contains("\"decision\":\"block\""));
    assert!(output.contains("slowcatch_project_check v1 failed"));
    assert!(output.contains("kind=cpp"));
    assert!(output.contains("main.cpp"));
    assert!(output.contains("undeclared identifier"));
}

#[test]
fn hook_stop_with_passing_cpp_check_returns_none() {
    assert!(cpp_host().handle(STOP).is_none());
}

#[test]
fn hook_stop_with_rust_and_cpp_failures_combines_diagnostics() {
    let mut host = cpp_host();
    host.write("/work/Cargo.toml", "[package]\nname='x'\n");
    host.write("/work/src/lib.rs", "pub fn f() {}\n");
    host.project_check = Some(rust_config());
    touch(&mut host, &["/work/src/lib.rs"]);
    host.runner.result = failure("mock check", 1, "diagnostic");

    let output = host.handle(STOP).unwrap();

    assert!(output.contains("check 1:"));
    assert!(output.contains("check 2:"));
    assert!(output.contains("kind=rust"));
    assert!(output.contains("kind=cpp"));
}

// Scripts.

#[test]
fn hook_mini_script_true_branch_blocks_with_fast_path_output() {
    let mut host = host(Box::new(MockFinder));
    host.write("/work/FLASHBACK.md", "# title\nline\n");

    let command =
        r#"if (Test-Path "/work/FLASHBACK.md") { Get-Content -Raw "/work/FLASHBACK.md" }"#;
    let output = host.handle(&shell_input("/work", command)).unwrap();

    assert!(output.contains("FAST_PATH_SUCCESS"));
    assert!(output.contains("L1 | # title"));
}

#[test]
fn hook_mini_script_false_branch_blocks_with_no_output() {
    let command = r#"if (Test-Path "/work/missing.md") { Get-Content -Raw "/work/missing.md" }"#;
    let output = host(Box::new(MockFinder)).handle(&shell_input("/work", command)).unwrap();

    assert!(output.contains("FAST_PATH_SUCCESS"));
    assert!(output.contains("slowcatch_result v1 text"));
    assert!(output.contains("kind=mini_script status=empty items=0"));
    assert!(output.contains("no results"));
}

#[test]
fn hook_mini_script_false_branch_runs_else_body() {
    let mut host = host(Box::new(MockFinder));
    host.write("/work/fallback.md", "fallback\n");

    let command = r#"if (Test-Path "/work/missing.md") { Get-Content -Raw "/work/missing.md" } else { Get-Content -Raw "/work/fallback.md" }"#;
    let output = host.handle(&shell_input("/work", command)).unwrap();

    assert!(output.contains("FAST_PATH_SUCCESS"));
    assert!(output.contains("L1 | fallback"));
}

#[test]
fn hook_mini_script_backend_failure_logs_and_fails_open() {
    let mut host = host(Box::new(MockFinder));
    host.folders.push("/work/dir.md".to_string());

    let command = r#"if (Test-Path "/work/dir.md") { Get-Content -Raw "/work/dir.md" }"#;
    let output = host.handle(&shell_input("/work", command));

    assert!(output.is_none());
    assert!(host.log[0].reason.contains("fast_path_backend_failure:mini_script"));
}

// The exact shape of what is printed and asked.

#[test]
fn result_text_is_exact() {
    let input = shell_input("C:\\repo", "Get-ChildItem C:\\repo -Recurse -Filter *.rs");
    let output = host(Box::new(MockFinder)).handle(&input).unwrap();

    assert_eq!(
        output,
        "{\"decision\":\"block\",\"reason\":\"FAST_PATH_SUCCESS: executed slowcatch substitute output; do not retry the original command.\\n\\nslowcatch_result v1 text\\nkind=find status=ok items=1\\n\\nC:\\\\repo\\\\main.rs\"}"
    );
}

#[test]
fn outputs_are_what_serde_json_writes() {
    let text = "tab\t \"quoted\" \\ and \u{1} é";
    let mut inner = serde_json::Map::new();
    inner.insert("hookEventName".to_string(), serde_json::Value::from("PostToolUse"));
    inner.insert("additionalContext".to_string(), serde_json::Value::from(text));
    let mut outer = serde_json::Map::new();
    outer.insert("decision".to_string(), serde_json::Value::from("block"));
    outer.insert(
        "reason".to_string(),
        serde_json::Value::from(format!("slowcatch_post_edit_check v1 issues\n\n{text}")),
    );
    outer.insert("hookSpecificOutput".to_string(), serde_json::Value::Object(inner));
    assert_eq!(render_edit_report(text), serde_json::Value::Object(outer).to_string());

    let mut inner = serde_json::Map::new();
    inner.insert("hookEventName".to_string(), serde_json::Value::from("UserPromptSubmit"));
    inner.insert("additionalContext".to_string(), serde_json::Value::from(text));
    let mut outer = serde_json::Map::new();
    outer.insert("hookSpecificOutput".to_string(), serde_json::Value::Object(inner));
    assert_eq!(render_prompt_context(text), serde_json::Value::Object(outer).to_string());

    let result = HookResult::from_lines("find", &vec!["a\"b".to_string()]);
    let read: serde_json::Value = serde_json::from_str(&render_fast_result(&result)).unwrap();
    assert!(read["reason"].as_str().unwrap().ends_with("items=1\n\na\"b"));
}

#[test]
fn input_is_read_member_by_member() {
    let input = parse_hook_input(
        r#"{"hook_event_name":"PreToolUse","tool_name":null,"other":[1],"tool_input":{"command":"ls","more":1},"tool_response":{"b":1, "a":"x"}}"#,
    )
    .unwrap();

    assert_eq!(input.hook_event_name.as_deref(), Some("PreToolUse"));
    assert_eq!(input.tool_name, None);
    assert_eq!(input.cwd, None);
    assert_eq!(input.tool_input.unwrap().command.as_deref(), Some("ls"));
    assert_eq!(input.tool_response.as_deref(), Some("{\"b\":1, \"a\":\"x\"}"));
}

#[test]
fn input_of_another_shape_is_an_error() {
    for input in [
        "",
        "[]",
        "{",
        "{\"cwd\":5}",
        "{\"tool_input\":\"ls\"}",
        "{\"tool_input\":{\"command\":1}}",
    ] {
        assert!(handle_hook_json(input).is_err(), "{input}");
    }
    assert!(matches!(handle_hook_json("{\"tool_input\":null}"), Ok(HookPlan::Ignore)));
}

#[test]
fn events_of_other_kinds_are_ignored() {
    for input in [
        r#"{"hook_event_name":"SessionStart","tool_input":{"command":"Get-ChildItem -Recurse -Filter *.rs"}}"#,
        r#"{"hook_event_name":"PreToolUse","tool_name":"Read","tool_input":{"command":"Get-ChildItem -Recurse -Filter *.rs"}}"#,
        r#"{"hook_event_name":"PostToolUse","tool_name":"Bash","tool_input":{"command":"ls"}}"#,
        r#"{"hook_event_name":"Stop"}"#,
        r#"{"hook_event_name":"UserPromptSubmit"}"#,
        "{}",
    ] {
        assert!(matches!(handle_hook_json(input), Ok(HookPlan::Ignore)), "{input}");
    }
}

#[test]
fn shell_tool_names_are_taken_over() {
    let input = r#"{"hook_event_name":"PreToolUse","tool_name":"Bash","cwd":"C:\\repo","tool_input":{"command":"Get-ChildItem -Recurse -Filter *.rs"}}"#;
    assert!(matches!(handle_hook_json(input), Ok(HookPlan::Execute { .. })));
}

#[test]
fn settled_steps_stay_settled() {
    let input = shell_input("C:\\repo", "Get-ChildItem C:\\repo -Recurse -Filter *.rs");
    let plan = handle_hook_json(&input).unwrap();
    let mut answers = vec![Answer::Lines(Vec::new())];
    let first = format!("{:?}", hook_step(&plan, &answers));
    answers.push(Answer::Noted);
    answers.push(Answer::Failed("late".to_string()));

    assert_eq!(first, format!("{:?}", hook_step(&plan, &answers)));
    assert!(first.contains("kind=find status=empty items=0"));
}

#[test]
fn answers_to_other_questions_are_refused() {
    let input = shell_input("C:\\repo", "Get-ChildItem C:\\repo -Recurse -Filter *.rs");
    let plan = handle_hook_json(&input).unwrap();
    let answers = vec![Answer::Text("paths".to_string())];

    match hook_step(&plan, &answers) {
        HookStep::Ask(HookRequest::Log { detail, .. }) => {
            assert_eq!(detail.reason, "fast_path_backend_failure:find: unexpected answer");
        }
        other => panic!("unexpected step: {other:?}"),
    }
}

#[test]
fn bodies_are_counted_without_separators_and_counts() {
    let (body, items, omitted) =
        normalize_body_and_count_items("a\n--\n\nb\nomitted_count=7\nomitted_count=12");

    assert_eq!(body, "a\n--\n\nb");
    assert_eq!(items, 2);
    assert_eq!(omitted, Some(12));
    let result = HookResult::from_body("find", "a\nomitted_count=3");
    assert_eq!(result.head.header_line(), "kind=find status=ok items=1 omitted=3");
    assert_eq!(HookResult::from_body("find", " no results\n").head.status, HookStatus::Empty);
}

#[test]
fn segments_are_rendered_one_after_the_other() {
    let results = vec![
        HookResult::from_lines("find", &vec!["a".to_string(), "b".to_string()]),
        HookResult::empty("grep"),
    ];

    assert_eq!(
        HookResult::segments("command_list", results).render(),
        "slowcatch_result v1 text\nkind=command_list status=ok items=2\n\nsegment 1 kind=find status=ok items=2\na\nb\n\nsegment 2 kind=grep status=empty items=0\nno results"
    );
    assert_eq!(
        HookResult::segments("command_list", vec![HookResult::empty("grep")]).head.status,
        HookStatus::Empty
    );
}

#[test]
fn conditions_are_looked_at_only_as_far_as_needed() {
    let mut host = host(Box::new(MockFinder));
    host.write("/work/a.md", "a\n");
    let command = r#"if ((Test-Path "/work/a.md") -or (Test-Path "/work/b.md")) { Get-Content -Raw "/work/a.md" }"#;
    let plan = handle_hook_json(&shell_input("/work", command)).unwrap();
    let mut answers: Vec<Answer> = Vec::new();
    match hook_step(&plan, &answers) {
        HookStep::Ask(HookRequest::Run(Request::TestPath(path))) => assert_eq!(path, "/work/a.md"),
        other => panic!("unexpected step: {other:?}"),
    }
    answers.push(Answer::Found(Some(PathKind { is_file: true, is_dir: false })));
    assert!(matches!(
        hook_step(&plan, &answers),
        HookStep::Ask(HookRequest::Run(Request::Operation(FastOperation::InspectFile { .. })))
    ));
}

#[test]
fn members_that_stand_twice_are_an_error() {
    for input in [
        r#"{"cwd":"a","cwd":"a"}"#,
        r#"{"cwd":"a","\u0063wd":"b"}"#,
        r#"{"cwd":null,"other":1,"cwd":"a"}"#,
        r#"{"tool_input":{"command":"ls","command":"ls"}}"#,
        r#"{"tool_response":1,"tool_response":1}"#,
    ] {
        assert!(handle_hook_json(input).is_err(), "{input}");
    }
    for input in [r#"{"other":1,"other":2}"#, r#"{"tool_input":{"more":1,"more":2}}"#] {
        assert!(handle_hook_json(input).is_ok(), "{input}");
    }
}

#[test]
fn members_that_are_ignored_may_hold_anything() {
    assert!(parse_hook_input(r#"{"other":1e999,"cwd":"a"}"#).is_ok());
    assert!(parse_hook_input(r#"{"tool_input":{"other":1e999}}"#).is_ok());
    assert!(parse_hook_input(r#"{"tool_response":1e999}"#).is_err());
    let nested = |depth: usize| format!("{}{}", "[".repeat(depth), "]".repeat(depth));
    assert!(parse_hook_input(&format!("{{\"other\":{}}}", nested(300))).is_ok());
    assert!(parse_hook_input(&format!("{{\"tool_response\":{}}}", nested(126))).is_ok());
    assert!(parse_hook_input(&format!("{{\"tool_response\":{}}}", nested(127))).is_err());
    assert!(parse_hook_input(r#"{"other":}"#).is_err());
    assert!(parse_hook_input(r#"{"cwd":"a"} {}"#).is_err());
}

#[test]
fn input_may_be_a_list_of_its_members() {
    let input = parse_hook_input(
        r#" ["PreToolUse", "s", null, null, null, "C:\\a, [b]", "Bash", ["ls \"x, y\""], {"a": [1, 2]}] "#,
    )
    .unwrap();

    assert_eq!(input.hook_event_name.as_deref(), Some("PreToolUse"));
    assert_eq!(input.session_id.as_deref(), Some("s"));
    assert_eq!(input.turn_id, None);
    assert_eq!(input.cwd.as_deref(), Some("C:\\a, [b]"));
    assert_eq!(input.tool_name.as_deref(), Some("Bash"));
    assert_eq!(input.tool_input.unwrap().command.as_deref(), Some("ls \"x, y\""));
    assert_eq!(input.tool_response.as_deref(), Some("{\"a\": [1, 2]}"));

    assert!(parse_hook_input("[null, null, null, null, null, null, null, null]").is_err());
    assert!(
        parse_hook_input("[null, null, null, null, null, null, null, null, null, null]").is_err()
    );
    assert!(parse_hook_input("[1, null, null, null, null, null, null, null, null]").is_err());
}

#[test]
fn json_is_split_outside_strings_and_brackets() {
    assert_eq!(
        split_json(r#""a,\",b", [1, {"x": 2}],{"y":","}, 3"#, ','),
        vec![r#""a,\",b""#, r#" [1, {"x": 2}]"#, r#"{"y":","}"#, " 3"]
    );
    assert_eq!(split_json("", ','), vec![""]);
    assert_eq!(split_json(r#""a:b" : [1:2]"#, ':'), vec![r#""a:b" "#, " [1:2]"]);
}
