use slowcatch::error::BackendError;
use slowcatch::integrations::project_check::{
    build_cpp_check_plan, build_project_check_plan, capped_utf8, collect_diagnostics,
    finished_check, name_matches_patterns, plan_project_checks, quote_command_value,
    render_cpp_command, render_project_check_failure, render_project_check_failures,
    resolve_config_path, run_project_check, run_project_checks, split_command, split_command_parts,
    trim_output, wildcard_match, CppCheckConfig, ProjectCheckConfig, ProjectCheckDiagnostic,
    ProjectCheckFailure, ProjectCommandRunner, ProjectFacts, TouchedFile, UpwardSearch,
    MAX_CPP_CHECK_FILES, MAX_OUTPUT_BYTES,
};
use std::cell::RefCell;

struct MockRunner {
    result: Option<ProjectCheckFailure>,
    calls: RefCell<Vec<String>>,
}

impl MockRunner {
    fn new(result: Option<ProjectCheckFailure>) -> Self {
        Self { result, calls: RefCell::new(Vec::new()) }
    }
}

impl ProjectCommandRunner for MockRunner {
    fn run(
        &self,
        command: &str,
        _cwd: &str,
        _timeout_seconds: u64,
    ) -> Result<Option<ProjectCheckFailure>, BackendError> {
        self.calls.borrow_mut().push(command.to_string());
        Ok(self.result.clone())
    }
}

struct BrokenRunner;

impl ProjectCommandRunner for BrokenRunner {
    fn run(
        &self,
        _command: &str,
        _cwd: &str,
        _timeout_seconds: u64,
    ) -> Result<Option<ProjectCheckFailure>, BackendError> {
        Err(BackendError::new("no shell"))
    }
}

fn rust_config() -> ProjectCheckConfig {
    ProjectCheckConfig {
        enabled: true,
        kind: "rust".to_string(),
        command: Some("cargo check -q".to_string()),
        timeout_seconds: Some(15),
        trigger: Some("stop".to_string()),
        changed_files: Some(vec!["*.rs".to_string()]),
    }
}

fn cpp_config() -> CppCheckConfig {
    let patterns = ["*.c", "*.cc", "*.cpp", "*.cxx", "*.h", "*.hh", "*.hpp", "*.hxx"];
    CppCheckConfig {
        enabled: true,
        kind: "cpp".to_string(),
        command: Some(
            "clangd --check={file} --compile-commands-dir={compile_commands_dir}".to_string(),
        ),
        timeout_seconds: Some(20),
        trigger: Some("stop".to_string()),
        changed_files: Some(patterns.iter().map(|pattern| pattern.to_string()).collect()),
        compile_commands_dir: Some("build".to_string()),
    }
}

fn touched(path: &str, is_file: bool) -> TouchedFile {
    let mut file = TouchedFile::new(path, "/work");
    file.is_file = is_file;
    file
}

fn project(paths: &[&str]) -> ProjectFacts {
    ProjectFacts {
        project_check: None,
        cpp_check: None,
        config_root: Some("/work".to_string()),
        cargo_root: Some("/work".to_string()),
        compile_commands_dir: resolve_config_path("/work", "build"),
        has_compile_commands: true,
        touched: paths.iter().map(|path| touched(path, true)).collect(),
    }
}

fn failure() -> ProjectCheckFailure {
    ProjectCheckFailure {
        command: "cargo check -q".to_string(),
        cwd: "/work".to_string(),
        exit_code: Some(101),
        stdout: String::new(),
        stderr: "error[E0425]: cannot find value".to_string(),
    }
}

#[test]
fn project_check_skips_without_config_rs_change_or_cargo() {
    let facts = project(&["/work/src/lib.rs"]);
    assert!(build_project_check_plan(&facts).is_none());

    let mut facts = project(&["/work/README.md"]);
    facts.project_check = Some(rust_config());
    assert!(build_project_check_plan(&facts).is_none());

    let mut facts = project(&["/work/lib.rs"]);
    facts.project_check = Some(rust_config());
    facts.cargo_root = None;
    assert!(build_project_check_plan(&facts).is_none());

    facts.cargo_root = Some("/work".to_string());
    let plan = build_project_check_plan(&facts).unwrap();
    assert_eq!(plan.command, "cargo check -q");
    assert_eq!(plan.cwd, "/work");
    assert_eq!(plan.timeout_seconds, 15);
}

#[test]
fn cpp_check_skips_without_cpp_change_or_compile_database() {
    let config = CppCheckConfig {
        command: None,
        timeout_seconds: None,
        trigger: None,
        changed_files: None,
        compile_commands_dir: None,
        ..cpp_config()
    };
    let mut facts = project(&["/work/README.md"]);
    facts.cpp_check = Some(config.clone());
    assert!(build_cpp_check_plan(&facts).is_empty());

    let mut facts = project(&["/work/main.cpp"]);
    facts.cpp_check = Some(config);
    facts.has_compile_commands = false;
    assert!(build_cpp_check_plan(&facts).is_empty());

    facts.has_compile_commands = true;
    assert_eq!(build_cpp_check_plan(&facts).len(), 1);
}

#[test]
fn cpp_check_resolves_compile_commands_dir_relative_to_config() {
    let mut facts = project(&["/work/main.cpp"]);
    facts.cpp_check = Some(cpp_config());

    let plan = build_cpp_check_plan(&facts);

    assert_eq!(facts.compile_commands_dir, "/work/build");
    assert_eq!(plan.len(), 1);
    assert_eq!(plan[0].file.as_deref(), Some("/work/main.cpp"));
    assert_eq!(
        plan[0].command,
        "clangd --check=/work/main.cpp --compile-commands-dir=/work/build"
    );
}

#[test]
fn cpp_check_caps_per_file_runs() {
    let names: Vec<String> = (0..12).map(|index| format!("/work/file{index}.cpp")).collect();
    let mut facts = project(&names.iter().map(|name| name.as_str()).collect::<Vec<&str>>());
    facts.cpp_check = Some(cpp_config());
    let runner = MockRunner::new(None);

    let result = run_project_checks(&facts, &runner).unwrap();

    assert!(result.is_empty());
    assert_eq!(runner.calls.borrow().len(), MAX_CPP_CHECK_FILES);
}

#[test]
fn failing_runner_returns_failure() {
    let mut facts = project(&["/work/src/lib.rs"]);
    facts.project_check = Some(rust_config());

    let result =
        run_project_check(&facts, &MockRunner::new(Some(failure()))).unwrap().unwrap();

    let rendered = render_project_check_failure(&result);
    assert!(rendered.contains("exit_code=101"));
    assert!(rendered.contains("error[E0425]"));
}

#[test]
fn passing_runner_returns_none() {
    let mut facts = project(&["/work/src/lib.rs"]);
    facts.project_check = Some(rust_config());

    let result = run_project_check(&facts, &MockRunner::new(None)).unwrap();

    assert!(result.is_none());
}

#[test]
fn broken_runner_ends_the_run() {
    let mut facts = project(&["/work/src/lib.rs"]);
    facts.project_check = Some(rust_config());

    assert_eq!(run_project_checks(&facts, &BrokenRunner).unwrap_err().message, "no shell");
    facts.project_check = None;
    assert!(run_project_checks(&facts, &BrokenRunner).unwrap().is_empty());
}

#[test]
fn disabled_and_foreign_checks_are_not_planned() {
    let mut facts = project(&["/work/src/lib.rs"]);
    for config in [
        ProjectCheckConfig { enabled: false, ..rust_config() },
        ProjectCheckConfig { kind: "go".to_string(), ..rust_config() },
        ProjectCheckConfig { trigger: Some("edit".to_string()), ..rust_config() },
        ProjectCheckConfig { command: Some("  ".to_string()), ..rust_config() },
    ] {
        facts.project_check = Some(config);
        assert!(plan_project_checks(&facts).is_empty());
    }
}

#[test]
fn time_limits_are_clamped() {
    let mut facts = project(&["/work/src/lib.rs"]);
    for (configured, used) in [(Some(0), 1), (Some(500), 120), (None, 15), (Some(30), 30)] {
        facts.project_check = Some(ProjectCheckConfig { timeout_seconds: configured, ..rust_config() });
        assert_eq!(plan_project_checks(&facts)[0].timeout_seconds, used);
    }
}

#[test]
fn files_that_are_gone_are_not_checked() {
    let mut facts = project(&[]);
    facts.touched.push(touched("/work/gone.cpp", false));
    facts.touched.push(touched("main.cpp", true));
    facts.cpp_check = Some(cpp_config());

    let plan = build_cpp_check_plan(&facts);

    assert_eq!(plan.len(), 1);
    assert_eq!(plan[0].file.as_deref(), Some("/work/main.cpp"));
}

#[test]
fn names_match_patterns_up_to_case() {
    assert!(wildcard_match("anything", "*"));
    assert!(wildcard_match("Main.RS", "*.rs"));
    assert!(wildcard_match("Makefile", "makefile"));
    assert!(!wildcard_match("rs", "*.rs"));
    assert!(!wildcard_match("main.rs.bak", "*.rs"));
    assert!(name_matches_patterns("a.h", &vec!["*.c".to_string(), "*.h".to_string()]));
}

#[test]
fn commands_are_split_at_white_space_outside_quotes() {
    assert_eq!(
        split_command_parts("cargo  check \"a b\" 'c \"d' e\"f g\""),
        vec!["cargo", "check", "a b", "c \"d", "ef g"]
    );
    assert_eq!(split_command_parts(" '' "), Vec::<String>::new());
    let (program, args) = split_command("clangd --check=a.cpp").unwrap();
    assert_eq!(program, "clangd");
    assert_eq!(args, vec!["--check=a.cpp"]);
    assert_eq!(split_command("  ").unwrap_err().message, "empty project check command");
}

#[test]
fn quoted_values_stay_one_argument() {
    assert_eq!(quote_command_value("/a b/c.cpp"), "\"/a b/c.cpp\"");
    assert_eq!(quote_command_value("/a/c.cpp"), "/a/c.cpp");
    let command = render_cpp_command("clangd --check={file} -d {compile_commands_dir}", "/a b.cpp", "/d");
    assert_eq!(split_command_parts(&command), vec!["clangd", "--check=/a b.cpp", "-d", "/d"]);
}

#[test]
fn outputs_are_capped() {
    assert_eq!(trim_output("  text\n"), "text");
    let long = "é".repeat(MAX_OUTPUT_BYTES);
    let cut = trim_output(&long);
    assert_eq!(cut, format!("{}\n... truncated ...", "é".repeat(MAX_OUTPUT_BYTES / 2)));
    assert_eq!(capped_utf8(&vec![b'x'; MAX_OUTPUT_BYTES + 5]).len(), MAX_OUTPUT_BYTES);
    assert_eq!(capped_utf8(&vec![b'a', 0xff, b'b']), "a\u{fffd}b");
}

#[test]
fn finished_checks_fail_only_without_success() {
    let out: Vec<u8> = b"out".to_vec();
    let err: Vec<u8> = b"err".to_vec();
    assert!(finished_check("cargo check", "/work", true, Some(0), &out, &err).is_none());
    let failure = finished_check("cargo check", "/work", false, None, &out, &err).unwrap();
    assert_eq!(
        render_project_check_failure(&failure),
        "command=cargo check\ncwd=/work\nexit_code=unknown\nstderr:\nerr\nstdout:\nout"
    );
}

#[test]
fn several_failures_are_numbered() {
    let first = ProjectCheckDiagnostic { kind: "rust".to_string(), file: None, failure: failure() };
    let second = ProjectCheckDiagnostic {
        kind: "cpp".to_string(),
        file: Some("a.cpp".to_string()),
        failure: ProjectCheckFailure { exit_code: Some(-1), stderr: String::new(), ..failure() },
    };

    assert_eq!(
        render_project_check_failures(&vec![first.clone()]),
        "kind=rust\ncommand=cargo check -q\ncwd=/work\nexit_code=101\nstderr:\nerror[E0425]: cannot find value"
    );
    assert_eq!(
        render_project_check_failures(&vec![first, second]),
        "check 1:\nkind=rust\ncommand=cargo check -q\ncwd=/work\nexit_code=101\nstderr:\nerror[E0425]: cannot find value\n\ncheck 2:\nkind=cpp\nfile=a.cpp\ncommand=cargo check -q\ncwd=/work\nexit_code=-1"
    );
}

#[test]
fn diagnostics_belong_to_their_checks() {
    let mut facts = project(&["/work/a.cpp", "/work/b.cpp"]);
    facts.cpp_check = Some(cpp_config());
    let plan = plan_project_checks(&facts);

    let diagnostics = collect_diagnostics(&plan, &vec![None, Some(failure())]);

    assert_eq!(diagnostics.len(), 1);
    assert_eq!(diagnostics[0].file.as_deref(), Some("/work/b.cpp"));
    assert_eq!(diagnostics[0].kind, "cpp");
}

#[test]
fn upward_search_goes_through_the_parents() {
    let mut search = UpwardSearch::new("/work/src", "Cargo.toml");
    let mut candidates: Vec<String> = Vec::new();
    while let Some(candidate) = search.candidate() {
        candidates.push(candidate);
        search.advance();
    }

    assert_eq!(candidates, vec!["/work/src/Cargo.toml", "/work/Cargo.toml", "/Cargo.toml"]);
}

struct ArgumentRunner {
    calls: RefCell<Vec<(String, String, u64)>>,
}

impl ProjectCommandRunner for ArgumentRunner {
    fn run(
        &self,
        command: &str,
        cwd: &str,
        timeout_seconds: u64,
    ) -> Result<Option<ProjectCheckFailure>, BackendError> {
        self.calls.borrow_mut().push((command.to_string(), cwd.to_string(), timeout_seconds));
        if command.contains("file1.cpp") {
            Ok(Some(failure()))
        } else {
            Ok(None)
        }
    }
}

#[test]
fn runner_is_handed_what_is_planned() {
    let mut facts = project(&["/work/src/lib.rs"]);
    facts.project_check = Some(rust_config());
    facts.project_check.as_mut().unwrap().command = Some("  cargo test ".to_string());
    facts.project_check.as_mut().unwrap().timeout_seconds = Some(500);
    facts.cargo_root = Some("/work/inner".to_string());
    let runner = ArgumentRunner { calls: RefCell::new(Vec::new()) };

    assert_eq!(run_project_check(&facts, &runner), Ok(None));
    assert_eq!(
        *runner.calls.borrow(),
        vec![("cargo test".to_string(), "/work/inner".to_string(), 120)]
    );

    assert_eq!(run_project_check(&facts, &MockRunner::new(Some(failure()))), Ok(Some(failure())));
    assert_eq!(run_project_check(&facts, &BrokenRunner).unwrap_err().message, "no shell");
    facts.cargo_root = None;
    assert_eq!(run_project_check(&facts, &BrokenRunner), Ok(None));
}

#[test]
fn each_planned_check_is_run_in_order() {
    let mut facts = project(&["/work/lib.rs", "/work/file0.cpp", "/work/file1.cpp"]);
    facts.project_check = Some(rust_config());
    facts.cpp_check = Some(cpp_config());
    let runner = ArgumentRunner { calls: RefCell::new(Vec::new()) };

    let diagnostics = run_project_checks(&facts, &runner).unwrap();

    let planned: Vec<(String, String, u64)> = plan_project_checks(&facts)
        .into_iter()
        .map(|check| (check.command, check.cwd, check.timeout_seconds))
        .collect();
    assert_eq!(planned.len(), 3);
    assert_eq!(*runner.calls.borrow(), planned);
    assert_eq!(diagnostics.len(), 1);
    assert_eq!(diagnostics[0].kind, "cpp");
    assert_eq!(diagnostics[0].file.as_deref(), Some("/work/file1.cpp"));
    assert_eq!(diagnostics[0].failure, failure());
}

#[test]
fn absolute_values_stay_as_they_are() {
    assert_eq!(resolve_config_path("/work", "/opt/build"), "/opt/build");
    assert_eq!(TouchedFile::new("/other/a.cpp", "/work").full_path, "/other/a.cpp");
    assert_eq!(TouchedFile::new("a.cpp", "/work").full_path, "/work/a.cpp");
}

#[test]
fn upward_search_ends_whatever_the_path() {
    for start in ["C:\\repo\\src", "C:/repo/src", "\\\\server\\share\\x", "a/b/c", "", "."] {
        let mut search = UpwardSearch::new(start, "Cargo.toml");
        let mut steps = 0;
        while search.candidate().is_some() {
            search.advance();
            steps += 1;
        }
        assert!(steps <= start.len() + 1, "{start}");
    }
}
