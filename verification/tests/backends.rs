use slowcatch::backends::directory::{
    list_directory, list_directory_projection, DirectoryEntry, DirectoryList, DirectoryMatchField,
    DirectoryNameMatch, DirectoryPipeline,
};
use slowcatch::backends::everything::{
    everything_query_text, find_with_everything, search_maximum, FileFinder, FindQuery, IndexItem,
};
use slowcatch::backends::grep::{GrepContextQuery, GrepMatch, GrepQuery};
use slowcatch::backends::inspect_file::{inspect_file, inspect_file_structured, InspectError};
use slowcatch::backends::projection::{
    apply_find_pipeline, external_output, render_find_measure, render_projection,
    validate_read_only_external, ExternalError, FileFacts, FileField, FileMetadata, FileSort,
    FileWhere, FindMeasure, FindPipeline, MeasureKind, MetadataField, Projection, ReadOnlyExternal,
};
use slowcatch::backends::slice::{head_lines, slice_lines, tail_lines, TailBuffer, WindowBuffer};
use slowcatch::backends::slice::LineUse;
use slowcatch::backends::walk::{grep, grep_context, Visit};
use slowcatch::error::BackendError;

// A file system in memory.

struct Folder {
    path: &'static str,
    files: Vec<(&'static str, String)>,
    folders: Vec<&'static str>,
}

impl Folder {
    fn with(files: Vec<(&'static str, String)>) -> Folder {
        Folder { path: "/work", files, folders: Vec::new() }
    }

    fn at(&self, path: &str) -> Visit {
        if path == self.path {
            let mut entries: Vec<String> = Vec::new();
            for (name, _) in &self.files {
                entries.push(format!("{}/{}", self.path, name));
            }
            return Visit::Directory { entries, failure: None };
        }
        for (name, text) in &self.files {
            if path == format!("{}/{}", self.path, name) {
                return Visit::File { text: text.clone() };
            }
        }
        Visit::Missing
    }

    fn entries(&self) -> Vec<DirectoryEntry> {
        let mut entries: Vec<DirectoryEntry> = Vec::new();
        for (name, text) in &self.files {
            entries.push(entry(self.path, name, true, text.len() as u64));
        }
        for name in &self.folders {
            entries.push(entry(self.path, name, false, 0));
        }
        entries
    }

    fn grep(&self, query: &GrepQuery) -> Result<Vec<GrepMatch>, BackendError> {
        let mut walk = grep(query);
        while let Some(path) = walk.next_path(query) {
            walk.visit(query, self.at(&path));
        }
        walk.finish(query)
    }

    fn grep_context(&self, query: &GrepContextQuery) -> Result<String, BackendError> {
        let mut walk = grep_context(query)?;
        while let Some(path) = walk.next_path(query) {
            walk.visit(query, self.at(&path));
        }
        walk.finish(query)
    }
}

fn entry(root: &str, name: &str, is_file: bool, length: u64) -> DirectoryEntry {
    DirectoryEntry {
        name: name.to_string(),
        path: format!("{root}/{name}"),
        is_file,
        is_dir: !is_file,
        metadata: Some(FileMetadata { length, modified: Some(7), is_dir: !is_file }),
    }
}

fn inspect(name: &str, text: &str) -> String {
    let path = format!("/work/{name}");
    inspect_file(&path, true, text.len() as u64, text.as_bytes().to_vec()).unwrap()
}

fn numbered_lines() -> Vec<String> {
    (1..=5).map(|index| format!("line {index}")).collect()
}

// Directories.

#[test]
fn directory_listing_outputs_full_paths_by_default() {
    let folder = Folder::with(vec![
        ("b.txt", "b".to_string()),
        ("a.txt", "a".to_string()),
    ]);
    let list = DirectoryList {
        root: "/work".to_string(),
        filter: None,
        names_only: false,
        files_only: false,
        directories_only: false,
    };

    let output = list_directory(&list, true, &folder.entries()).unwrap();

    assert!(output.contains("/work/a.txt"));
    assert!(output.contains("/work/b.txt"));
    assert_eq!(output, "/work/a.txt\n/work/b.txt");
}

#[test]
fn directory_listing_can_filter_and_emit_names_only() {
    let folder = Folder::with(vec![
        ("keep.uid", "uid".to_string()),
        ("skip.txt", "txt".to_string()),
    ]);
    let list = DirectoryList {
        root: "/work".to_string(),
        filter: Some("*.uid".to_string()),
        names_only: true,
        files_only: true,
        directories_only: false,
    };

    let output = list_directory(&list, true, &folder.entries()).unwrap();

    assert_eq!(output, "keep.uid");
}

#[test]
fn directory_projection_can_filter_directory_names() {
    let folder = Folder { path: "/work", files: Vec::new(), folders: vec!["View3D", "Other"] };
    let pipeline = DirectoryPipeline {
        list: DirectoryList {
            root: "/work".to_string(),
            filter: None,
            names_only: false,
            files_only: false,
            directories_only: true,
        },
        name_match: Some(DirectoryNameMatch {
            field: DirectoryMatchField::Name,
            pattern: "view3d".to_string(),
        }),
        projection: Projection::FullNameOnly,
    };

    let output = list_directory_projection(&pipeline, true, &folder.entries()).unwrap();

    assert!(output.contains("View3D"));
    assert!(!output.contains("Other"));
}

#[test]
fn listing_of_no_directory_fails() {
    let list = DirectoryList {
        root: "/work/a.txt".to_string(),
        filter: None,
        names_only: false,
        files_only: false,
        directories_only: false,
    };

    let error = list_directory(&list, false, &Vec::new()).unwrap_err();

    assert_eq!(error.message, "not a directory: /work/a.txt");
}

#[test]
fn listing_of_nothing_says_so() {
    let list = DirectoryList {
        root: "/work".to_string(),
        filter: Some("*.missing".to_string()),
        names_only: false,
        files_only: false,
        directories_only: false,
    };
    let folder = Folder::with(vec![("a.txt", "a".to_string())]);

    assert_eq!(list_directory(&list, true, &folder.entries()).unwrap(), "no results");
}

#[test]
fn listing_is_sorted_without_regard_to_case() {
    let folder = Folder::with(vec![
        ("b.txt", String::new()),
        ("C.txt", String::new()),
        ("A.txt", String::new()),
    ]);
    let list = DirectoryList {
        root: "/work".to_string(),
        filter: None,
        names_only: true,
        files_only: false,
        directories_only: false,
    };

    assert_eq!(list_directory(&list, true, &folder.entries()).unwrap(), "A.txt\nb.txt\nC.txt");
}

// File names.

struct MockFinder;

impl FileFinder for MockFinder {
    fn find(&self, query: &FindQuery) -> Result<Vec<String>, BackendError> {
        Ok(vec![format!(
            "{}:{}:{}",
            query.root.as_deref().unwrap_or("<cwd>"),
            query.pattern,
            query.files_only
        )])
    }
}

#[test]
fn file_finder_trait_supports_mocking_everything() {
    let result = MockFinder
        .find(&FindQuery {
            root: Some("C:\\repo".to_string()),
            pattern: "*.rs".to_string(),
            files_only: true,
            limit: 10,
        })
        .unwrap();

    assert_eq!(result, vec!["C:\\repo:*.rs:true"]);
}

fn query(files_only: bool, limit: usize) -> FindQuery {
    FindQuery { root: Some("C:\\repo".to_string()), pattern: "*.rs".to_string(), files_only, limit }
}

#[test]
fn query_text_names_filter_pattern_and_root() {
    assert_eq!(everything_query_text(&query(true, 5)), "file: *.rs C:\\repo");
    assert_eq!(everything_query_text(&query(false, 5)), "*.rs C:\\repo");
}

#[test]
fn search_takes_files_up_to_its_limit() {
    let items = vec![
        IndexItem { path: Ok("dir".to_string()), is_folder: true },
        IndexItem { path: Ok("a.rs".to_string()), is_folder: false },
        IndexItem { path: Ok("b.rs".to_string()), is_folder: false },
        IndexItem { path: Err(BackendError::new("lost")), is_folder: false },
    ];

    assert_eq!(find_with_everything(&query(true, 2), &items).unwrap(), vec!["a.rs", "b.rs"]);
    assert_eq!(find_with_everything(&query(false, 2), &items).unwrap(), vec!["dir", "a.rs"]);
    assert_eq!(find_with_everything(&query(true, 0), &items).unwrap(), vec!["a.rs"]);
    assert_eq!(find_with_everything(&query(true, 9), &items).unwrap_err().message, "lost");
    assert_eq!(search_maximum(12), 12);
}

// Lines.

#[test]
fn grep_emits_path_line_text() {
    let folder = Folder::with(vec![("sample.txt", "alpha\nneedle here\n".to_string())]);

    let matches = folder
        .grep(&GrepQuery {
            roots: vec!["/work".to_string()],
            pattern: "needle".to_string(),
            case_sensitive: true,
            simple_match: true,
            limit: 10,
        })
        .unwrap();

    assert_eq!(matches.len(), 1);
    assert!(matches[0].to_tool_text().ends_with(":2:needle here"));
}

#[test]
fn grep_context_outputs_before_match_after_lines() {
    let folder = Folder::with(vec![("sample.txt", "before\nneedle\nnext\n".to_string())]);

    let output = folder
        .grep_context(&GrepContextQuery {
            roots: vec!["/work/sample.txt".to_string()],
            pattern: "needle".to_string(),
            before: 1,
            after: 1,
            case_sensitive: true,
            simple_match: true,
            limit: 10,
        })
        .unwrap();

    assert!(output.contains("L1:before: before"));
    assert!(output.contains("L2:match: needle"));
    assert!(output.contains("L3:after: next"));
}

#[test]
fn grep_context_invalid_regex_fails() {
    let folder = Folder::with(vec![("sample.txt", "needle\n".to_string())]);

    let result = folder.grep_context(&GrepContextQuery {
        roots: vec!["/work/sample.txt".to_string()],
        pattern: "[".to_string(),
        before: 0,
        after: 0,
        case_sensitive: true,
        simple_match: false,
        limit: 10,
    });

    assert!(result.is_err());
}

#[test]
fn grep_context_missing_root_fails() {
    let folder = Folder::with(Vec::new());

    let result = folder.grep_context(&GrepContextQuery {
        roots: vec!["/work/missing.txt".to_string()],
        pattern: "needle".to_string(),
        before: 0,
        after: 0,
        case_sensitive: true,
        simple_match: true,
        limit: 10,
    });

    assert_eq!(
        result.unwrap_err().message,
        "grep context root does not exist: /work/missing.txt"
    );
}

#[test]
fn grep_stops_at_its_limit_and_ignores_case_where_asked() {
    let folder = Folder::with(vec![
        ("a.txt", "Needle\nneedle\n".to_string()),
        ("b.txt", "NEEDLE\n".to_string()),
    ]);
    let mut query = GrepQuery {
        roots: vec!["/work".to_string()],
        pattern: "needle".to_string(),
        case_sensitive: false,
        simple_match: true,
        limit: 2,
    };

    let texts: Vec<String> =
        folder.grep(&query).unwrap().iter().map(|item| item.to_tool_text()).collect();
    assert_eq!(texts, vec!["/work/a.txt:1:Needle", "/work/a.txt:2:needle"]);

    query.limit = 10;
    assert_eq!(folder.grep(&query).unwrap().len(), 3);
    query.case_sensitive = true;
    assert_eq!(folder.grep(&query).unwrap().len(), 1);

    let folder = Folder::with(vec![("c.txt", "\u{c9}T\u{c9}\n".to_string())]);
    query.pattern = "\u{e9}t\u{e9}".to_string();
    assert_eq!(folder.grep(&query).unwrap().len(), 0);
    query.case_sensitive = false;
    assert_eq!(folder.grep(&query).unwrap().len(), 1);
}

#[test]
fn context_search_takes_patterns_unless_told_otherwise() {
    let folder = Folder::with(vec![("a.txt", "Needle\nneedle\nN.*e\n".to_string())]);
    let mut query = GrepContextQuery {
        roots: vec!["/work/a.txt".to_string()],
        pattern: "^N.*e$".to_string(),
        before: 0,
        after: 0,
        case_sensitive: true,
        simple_match: false,
        limit: 10,
    };

    let output = folder.grep_context(&query).unwrap();
    assert!(output.contains("L1:match: Needle"));
    assert!(!output.contains("L2:match"));
    assert!(output.contains("L3:match: N.*e"));

    query.case_sensitive = false;
    assert!(folder.grep_context(&query).unwrap().contains("L2:match: needle"));

    query.simple_match = true;
    query.pattern = "n.*E".to_string();
    let output = folder.grep_context(&query).unwrap();
    assert!(output.contains("L3:match: N.*e"));
    assert!(!output.contains("L1:match"));
}

#[test]
fn filters_of_listings_are_wildcards() {
    let folder = Folder::with(vec![
        ("a1.txt", String::new()),
        ("a12.txt", String::new()),
        ("A3.TXT", String::new()),
        ("a+.txt", String::new()),
    ]);
    let mut list = DirectoryList {
        root: "/work".to_string(),
        filter: Some("a?.txt".to_string()),
        names_only: true,
        files_only: false,
        directories_only: false,
    };

    assert_eq!(list_directory(&list, true, &folder.entries()).unwrap(), "a+.txt\na1.txt\nA3.TXT");
    list.filter = Some("a+.txt".to_string());
    assert_eq!(list_directory(&list, true, &folder.entries()).unwrap(), "a+.txt");
}

// Inspections.

#[test]
fn small_code_file_outputs_numbered_lines() {
    let output = inspect("sample.rs", "fn main() {\n    println!(\"hi\");\n}\n");

    assert!(output.contains("render=full"));
    assert!(output.contains("file_kind=code"));
    assert!(output.contains("line_format=source:L<n>| summary:L<n> <type>|"));
    assert!(output.contains("L1 | fn main() {"));
    assert!(output.contains("L2 |     println!"));
}

#[test]
fn large_code_file_outputs_outline_and_large_file_advice() {
    let mut text = String::new();
    text.push_str("import os\nclass Runner:\n");
    for index in 0..520 {
        text.push_str(&format!("    def method_{index}(self):\n        return {index}\n"));
    }

    let output = inspect("large.py", &text);

    assert!(output.contains("render=outline"));
    assert!(output.contains("L2 symbol | class Runner"));
    assert!(output.contains("L3 symbol | function method_0"));
    assert!(output.contains("advice=large_code_prefer_split_modules"));
    assert!(!output.contains("return 0"));
}

#[test]
fn markdown_large_file_outputs_heading_summary() {
    let mut text = String::new();
    for index in 0..2100 {
        if index % 500 == 0 {
            text.push_str(&format!("# Heading {index}\n"));
        } else {
            text.push_str("body\n");
        }
    }

    let output = inspect("doc.md", &text);

    assert!(output.contains("render=summary"));
    assert!(output.contains("L1 heading | h1 Heading 0"));
    assert!(output.contains("hint=use slice/read_lines for exact ranges"));
}

#[test]
fn markdown_fence_uses_typed_range_record() {
    let mut text = String::new();
    text.push_str("# Title\n");
    text.push_str("body\n");
    text.push_str("```powershell\n");
    text.push_str("cargo test\n");
    text.push_str("```\n");
    for _ in 0..2100 {
        text.push_str("body\n");
    }

    let output = inspect("doc.md", &text);

    assert!(output.contains("L3 fence | range=L3-L5 lang=powershell"));
    assert!(!output.contains("L3-L5 fenced_code"));
}

#[test]
fn large_config_outputs_typed_keys_and_sections() {
    let mut text = String::new();
    text.push_str("[package]\nname = \"demo\"\n");
    for index in 0..2100 {
        text.push_str(&format!("key{index} = \"value\"\n"));
    }

    let output = inspect("large.toml", &text);

    assert!(output.contains("file_kind=config"));
    assert!(output.contains("L1 section | [package]"));
    assert!(output.contains("L2 key | name"));
}

#[test]
fn cargo_lock_is_recognized_as_lockfile() {
    let mut text = String::new();
    text.push_str("# generated\nversion = 4\n[[package]]\nname = \"demo\"\n");
    for index in 0..2100 {
        text.push_str(&format!("checksum{index} = \"abc\"\n"));
    }

    let output = inspect("Cargo.lock", &text);

    assert!(output.contains("file_kind=lockfile"));
    assert!(output.contains("L2 key | version"));
    assert!(output.contains("L3 section | [[package]]"));
}

#[test]
fn env_dockerfile_and_extensionless_config_classify_sensibly() {
    assert!(inspect(".env.local", "TOKEN=abc\n").contains("file_kind=config"));
    assert!(inspect("Dockerfile", "FROM rust:latest\n").contains("file_kind=config"));
    assert!(inspect("settings", "name = \"demo\"\nvalue = 1\n").contains("file_kind=config"));
}

#[test]
fn binary_file_fails() {
    let bytes: Vec<u8> = vec![0, 159, 146, 150];

    assert!(inspect_file("/work/sample.bin", true, 4, bytes.clone()).is_err());
    assert_eq!(
        inspect_file_structured("/work/sample.bin", true, 4, bytes).unwrap_err(),
        InspectError::Binary { path: "/work/sample.bin".to_string() }
    );
}

#[test]
fn what_is_no_file_or_no_text_cannot_be_inspected() {
    assert_eq!(
        inspect_file("/work/dir", false, 0, Vec::new()).unwrap_err().to_error().message,
        "not a file: /work/dir"
    );
    let result = inspect_file_structured("/work/latin.txt", true, 1, vec![0xe9]);
    assert!(matches!(result, Err(InspectError::NotUtf8 { .. })));
}

#[test]
fn full_rendering_keeps_every_line() {
    let text = "one\ntwo\n\nfour";
    let inspection =
        inspect_file_structured("/work/a.txt", true, 13, text.as_bytes().to_vec()).unwrap();

    assert_eq!(inspection.render, "full");
    assert_eq!(inspection.lines, 4);
    assert_eq!(inspection.body, "L1 | one\nL2 | two\nL3 | \nL4 | four");
}

// Projections.

fn facts(path: &str, length: u64) -> FileFacts {
    FileFacts::new(path, Some(FileMetadata { length, modified: Some(3), is_dir: false }))
}

#[test]
fn fullname_projection_outputs_paths() {
    let output = render_projection(
        &vec![FileFacts::new("C:\\repo\\AGENTS.md", None)],
        &Projection::FullNameOnly,
    );

    assert_eq!(output, "C:\\repo\\AGENTS.md");
}

#[test]
fn metadata_projection_outputs_key_value_lines() {
    let output = render_projection(
        &vec![facts("/work/sample.txt", 5)],
        &Projection::Metadata { fields: vec![MetadataField::FullName, MetadataField::Length] },
    );

    assert!(output.contains("FullName="));
    assert!(output.contains("Length=5"));
}

#[test]
fn readonly_git_status_allowlist_is_direct_exec() {
    let external = ReadOnlyExternal {
        program: "git".to_string(),
        args: vec!["status".to_string(), "--short".to_string()],
    };

    assert!(validate_read_only_external(&external).is_ok());
    let stdout: Vec<u8> = b" M src/lib.rs\n".to_vec();
    let output = external_output(true, "exit status: 0", stdout, &Vec::new()).unwrap();

    assert!(output.len() <= 64 * 1024);
    assert_eq!(output, " M src/lib.rs\n");
}

#[test]
fn non_allowlisted_external_fails() {
    let external = ReadOnlyExternal {
        program: "git".to_string(),
        args: vec!["checkout".to_string(), "main".to_string()],
    };

    assert!(validate_read_only_external(&external).is_err());
}

fn git(args: &[&str]) -> ReadOnlyExternal {
    ReadOnlyExternal {
        program: "git".to_string(),
        args: args.iter().map(|arg| arg.to_string()).collect(),
    }
}

#[test]
fn each_refusal_of_a_program_has_its_words() {
    let mut other = git(&["status", "--short"]);
    other.program = "rm".to_string();
    let refusals = [
        (other, "external program is not allowlisted"),
        (git(&["push", "origin"]), "external command is not allowlisted"),
        (git(&["log", "--oneline", "-n", "x"]), "git log count is not a number"),
        (git(&["log", "--oneline", "-n", "51"]), "git log count is outside 1..=50"),
        (git(&["log", "--oneline", "-n", "0"]), "git log count is outside 1..=50"),
    ];
    for (external, words) in refusals {
        let error = validate_read_only_external(&external).unwrap_err();
        assert_eq!(error.to_error().message, words);
    }
    assert!(validate_read_only_external(&git(&["log", "--oneline", "-n", "50"])).is_ok());
}

#[test]
fn output_of_a_program_is_used_only_if_it_is_clean() {
    let none: Vec<u8> = Vec::new();
    let failed = external_output(false, "exit status: 1", Vec::new(), &none).unwrap_err();
    assert_eq!(failed.to_error().message, "external command exited with exit status: 1");
    assert_eq!(
        external_output(true, "", Vec::new(), &b"oops".to_vec()).unwrap_err(),
        ExternalError::Stderr
    );
    assert_eq!(
        external_output(true, "", vec![b'x'; 65_537], &none).unwrap_err(),
        ExternalError::TooLong
    );
    assert!(matches!(
        external_output(true, "", vec![0xff], &none),
        Err(ExternalError::NotUtf8 { .. })
    ));
    assert_eq!(external_output(true, "", vec![b'x'; 65_536], &none).unwrap().len(), 65_536);
}

#[test]
fn pipeline_filters_sorts_and_limits() {
    let files = vec![facts("old.rs", 3), facts("note.txt", 9), facts("new.rs", 24)];
    let pipeline = FindPipeline {
        query: query(true, 80),
        where_filter: Some(FileWhere::Like { field: FileField::Name, pattern: "*.rs".to_string() }),
        sort: Some(FileSort { field: FileField::Length, descending: true }),
        projection: Projection::FullNameOnly,
        limit: Some(1),
    };

    let left = apply_find_pipeline(&files, &pipeline);

    assert_eq!(render_projection(&left, &pipeline.projection), "new.rs");
}

#[test]
fn measures_are_exact() {
    let files = vec![facts("a.rs", 3), facts("note.txt", 9), facts("b.rs", 24)];
    let mut measure = FindMeasure {
        query: query(true, 80),
        where_filter: Some(FileWhere::Equals { field: FileField::Extension, value: ".rs".to_string() }),
        measure: MeasureKind::Count,
    };

    assert_eq!(render_find_measure(&files, &measure), "Count=2");
    measure.measure = MeasureKind::Length;
    assert_eq!(render_find_measure(&files, &measure), "Count=2 Sum=27 Minimum=3 Maximum=24");
}

// Windows of lines.

#[test]
fn slice_reads_exact_line_window() {
    assert_eq!(slice_lines(&numbered_lines(), 2, 2), vec!["line 3", "line 4"]);
}

#[test]
fn head_reads_first_lines() {
    assert_eq!(head_lines(&numbered_lines(), 2), vec!["line 1", "line 2"]);
}

#[test]
fn tail_reads_last_lines() {
    assert_eq!(tail_lines(&numbered_lines(), 2), vec!["line 4", "line 5"]);
}

#[test]
fn buffers_give_what_the_windows_are() {
    let mut tail = TailBuffer::new(2);
    for line in numbered_lines() {
        tail.push(line);
    }
    assert_eq!(tail.finish(), tail_lines(&numbered_lines(), 2));

    let mut window = WindowBuffer::new(2, 2);
    for line in numbered_lines() {
        match window.next_use() {
            LineUse::Skip => window.skip_line(),
            LineUse::Take => window.push(line),
            LineUse::Stop => break,
        }
    }
    assert_eq!(window.lines, slice_lines(&numbered_lines(), 2, 2));
}

#[test]
fn head_and_rest_are_all_lines() {
    let all = numbered_lines();
    let mut both = head_lines(&all, 2);
    both.extend(slice_lines(&all, 2, 9));
    assert_eq!(both, all);
    assert_eq!(tail_lines(&all, 9), all);
    assert_eq!(tail_lines(&all, 0), Vec::<String>::new());
}

#[test]
fn context_search_with_limit_zero_still_looks_at_its_first_root() {
    let folder = Folder::with(vec![("a.txt", "needle\n".to_string())]);
    let query = |roots: &[&str]| GrepContextQuery {
        roots: roots.iter().map(|root| root.to_string()).collect(),
        pattern: "needle".to_string(),
        before: 0,
        after: 0,
        case_sensitive: true,
        simple_match: true,
        limit: 0,
    };

    assert_eq!(
        folder.grep_context(&query(&["/work/missing.txt", "/work/a.txt"])).unwrap_err().message,
        "grep context root does not exist: /work/missing.txt"
    );
    assert_eq!(
        folder.grep_context(&query(&["/work/a.txt", "/work/missing.txt"])).unwrap(),
        folder.grep_context(&query(&["/work/a.txt"])).unwrap()
    );
}
