use slowcatch::integrations::mask::{mask_html_xml, mask_json_like, mask_markdown, mask_python};
use slowcatch::integrations::post_edit_check::{
    apply_patch_succeeded, check_apply_patch_command, check_file, language_for_path,
    touched_paths_from_apply_patch, Finding, PostEditReport, QuickCheckLanguage, Severity,
    MAX_FILES_TO_CHECK, MAX_FINDINGS,
};
use std::path::PathBuf;

/// The report on a patch that updates one file with the given contents.
fn report_on(name: &str, content: &str) -> Option<PostEditReport> {
    let patch = format!("*** Update File: /work/{name}");
    let paths = touched_paths_from_apply_patch(&patch, None).unwrap();
    assert_eq!(paths.len(), 1);
    let bytes = content.as_bytes().to_vec();
    check_apply_patch_command(vec![check_file(&paths[0], true, bytes.len() as u64, bytes)])
}

fn join(root: &str, path: &str) -> String {
    PathBuf::from(root).join(path).display().to_string()
}

#[test]
fn extracts_add_update_delete_and_move_paths() {
    let patch = r#"*** Begin Patch
*** Add File: src/new.rs
*** Update File: src/lib.rs
*** Delete File: src/old.rs
*** Update File: src/old.rs
*** Move to: src/moved.rs
*** End Patch"#;

    let paths = touched_paths_from_apply_patch(patch, Some("C:\\repo")).unwrap();

    assert_eq!(
        paths,
        vec![
            join("C:\\repo", "src/new.rs"),
            join("C:\\repo", "src/lib.rs"),
            join("C:\\repo", "src/moved.rs"),
        ]
    );
}

#[test]
fn duplicate_paths_collapse() {
    let patch = "*** Update File: src/lib.rs\n*** Update File: src/lib.rs\n";

    let paths = touched_paths_from_apply_patch(patch, Some("C:\\repo")).unwrap();

    assert_eq!(paths.len(), 1);
}

#[test]
fn clean_code_produces_no_report() {
    let name = "lib.rs";
    let content = "fn main() {\n    println!(\"ok\");\n}\n";

    let report = report_on(name, content);

    assert!(report.is_none());
}

#[test]
fn language_mapping_covers_all_quick_check_paths() {
    let cases = [
        ("lib.rs", QuickCheckLanguage::Rust),
        ("main.py", QuickCheckLanguage::Python),
        ("app.js", QuickCheckLanguage::JavaScriptLike),
        ("app.jsx", QuickCheckLanguage::JsxLike),
        ("app.ts", QuickCheckLanguage::JavaScriptLike),
        ("app.tsx", QuickCheckLanguage::JsxLike),
        ("main.c", QuickCheckLanguage::CLike),
        ("main.cc", QuickCheckLanguage::CLike),
        ("main.cpp", QuickCheckLanguage::CLike),
        ("main.cxx", QuickCheckLanguage::CLike),
        ("main.h", QuickCheckLanguage::CLike),
        ("main.hh", QuickCheckLanguage::CLike),
        ("main.hpp", QuickCheckLanguage::CLike),
        ("main.hxx", QuickCheckLanguage::CLike),
        ("main.cs", QuickCheckLanguage::CSharp),
        ("Main.java", QuickCheckLanguage::JavaLike),
        ("main.go", QuickCheckLanguage::Go),
        ("node.gd", QuickCheckLanguage::GDScript),
        ("data.json", QuickCheckLanguage::Json),
        ("Cargo.toml", QuickCheckLanguage::Toml),
        ("config.yaml", QuickCheckLanguage::Yaml),
        ("config.yml", QuickCheckLanguage::Yaml),
        ("README.md", QuickCheckLanguage::Markdown),
        ("README.mdx", QuickCheckLanguage::Markdown),
        ("style.css", QuickCheckLanguage::CssLike),
        ("style.scss", QuickCheckLanguage::CssLike),
        ("index.html", QuickCheckLanguage::HtmlXml),
        ("layout.xml", QuickCheckLanguage::HtmlXml),
        ("Dockerfile", QuickCheckLanguage::ShellLike),
        ("Makefile", QuickCheckLanguage::ShellLike),
        (".env.local", QuickCheckLanguage::ShellLike),
        (".gitignore", QuickCheckLanguage::ShellLike),
        (".gitattributes", QuickCheckLanguage::ShellLike),
        (".editorconfig", QuickCheckLanguage::ShellLike),
    ];

    for (path, language) in cases {
        assert_eq!(language_for_path(path), language, "{path}");
    }
    assert_eq!(
        language_for_path("note.txt"),
        QuickCheckLanguage::Unknown
    );
}

#[test]
fn conflict_marker_is_reported() {
    let name = "lib.rs";
    let content = "fn main() {\n<<<<<<< ours\n}\n";

    let report = report_on(name, content).unwrap();

    assert!(report.render().contains("git conflict marker"));
}

#[test]
fn patch_marker_is_reported() {
    let name = "lib.rs";
    let content = "fn main() {}\n*** Begin Patch\n";

    let report = report_on(name, content).unwrap();

    assert!(report.render().contains("patch marker left in file"));
}

#[test]
fn unmatched_delimiter_is_reported_for_brace_language() {
    let name = "lib.rs";
    let content = "fn main() {\n";

    let report = report_on(name, content).unwrap();

    assert!(report.render().contains("unclosed delimiter"));
}

#[test]
fn delimiters_inside_comments_are_ignored() {
    let name = "lib.rs";
    let content = "fn main() {}\n/* { [ ( */\n// } ] )\n";

    let report = report_on(name, content);

    assert!(report.is_none());
}

#[test]
fn c_like_literals_preprocessor_and_comments_are_ignored() {
    let name = "main.cpp";
    let content = "#define TEXT \"{ [ ( <<<<<<< *** Begin Patch\"\nint main() { char c = '}'; /* { [ ( */ return 0; }\n";

    let report = report_on(name, content);

    assert!(report.is_none());
}

#[test]
fn js_ts_templates_regex_and_jsx_text_are_ignored() {
    let name = "view.tsx";
    let content = "const text = `<<<<<<< { [ (`;\nconst re = /}\\]\\)/;\nexport const View = () => <div data-x=\"{ [ (\">{'*** Begin Patch'}</div>;\n";

    let report = report_on(name, content);

    assert!(report.is_none());
}

#[test]
fn python_triple_strings_and_comments_are_ignored() {
    let name = "script.py";
    let content = "def main():\n    text = '''<<<<<<< { [ ( *** Begin Patch'''\n    value = 1  # } ] ) TODO_REMOVE\n";

    let report = report_on(name, content);

    assert!(report.is_none());
}

#[test]
fn config_strings_with_markers_are_ignored() {
    for (name, content) in [
        ("data.json", "{\"value\":\"<<<<<<< { [ (\"}\n"),
        ("config.toml", "value = '*** Begin Patch { [ ('\n"),
        ("config.yaml", "value: \"TODO_REMOVE { [ (\"\n"),
    ] {
        let report = report_on(name, content);

        assert!(report.is_none(), "{name}");
    }
}

#[test]
fn markdown_fenced_blocks_are_marker_only_skipped() {
    let name = "README.md";
    let content = "# Notes\n```rust\n<<<<<<< ours\nfn main() {\n*** Begin Patch\n```\n";

    let report = report_on(name, content);

    assert!(report.is_none());
}

#[test]
fn html_xml_comments_and_attributes_are_ignored() {
    let name = "index.html";
    let content = "<!-- <<<<<<< { [ ( -->\n<div data-value=\"*** Begin Patch { [ (\"></div>\n";

    let report = report_on(name, content);

    assert!(report.is_none());
}

#[test]
fn shell_like_files_are_marker_only() {
    let name = "Dockerfile";
    let content = "RUN echo '{ [ ('\nENV FLAG=TODO_REMOVE\n";

    let report = report_on(name, content).unwrap();

    assert!(report.render().contains("remove placeholder"));
    assert!(!report.render().contains("delimiter"));
}

#[test]
fn delimiter_imbalance_reports_for_brace_families() {
    for name in [
        "lib.rs",
        "main.cpp",
        "app.ts",
        "main.go",
        "Main.java",
        "Program.cs",
        "node.gd",
        "style.css",
        "data.json",
    ] {
        let content = "{\n";

        let Some(report) = report_on(name, content) else {
            panic!("{name}: expected syntax warning");
        };

        assert!(report.render().contains("unclosed delimiter"), "{name}");
    }
}

#[test]
fn true_markers_outside_masked_regions_are_reported() {
    for name in ["lib.rs", "main.cpp", "app.ts", "script.py", "README.md"] {
        let content = "<<<<<<< ours\n";

        let Some(report) = report_on(name, content) else {
            panic!("{name}: expected syntax warning");
        };

        assert!(report.render().contains("git conflict marker"), "{name}");
    }
}

#[test]
fn syntax_parse_warnings_report_builtin_parser_languages() {
    for (name, content) in [
        ("bad.rs", "fn main() { let = 1; }\n"),
        ("bad.py", "def main():\n    return = 1\n"),
        ("bad.c", "int main(void) { int = 1; return 0; }\n"),
        ("bad.cpp", "class Demo { public: void f() { int = 1; } };\n"),
        ("bad.gd", "func _ready():\n    if :\n        pass\n"),
    ] {

        let Some(report) = report_on(name, content) else {
            panic!("{name}: expected syntax warning");
        };
        let rendered = report.render();

        assert!(rendered.contains("warning"), "{name}: {rendered}");
        assert!(
            rendered.contains("syntax parse issue detected"),
            "{name}: {rendered}"
        );
    }
}

#[test]
fn valid_builtin_parser_languages_do_not_report_syntax_warnings() {
    for (name, content) in [
        ("ok.rs", "fn main() { let _x = 1; }\n"),
        ("ok.py", "def main():\n    return 1\n"),
        ("ok.c", "int main(void) { return 0; }\n"),
        ("ok.cpp", "class Demo { public: void f() {} };\n"),
        ("ok.gd", "func _ready():\n    pass\n"),
    ] {
        let report = report_on(name, content);

        assert!(report.is_none(), "{name}: {report:?}");
    }
}

#[test]
fn delimiter_errors_skip_duplicate_syntax_warnings() {
    let name = "lib.rs";
    let content = "fn main() {\n";

    let report = report_on(name, content).unwrap();
    let rendered = report.render();

    assert!(rendered.contains("unclosed delimiter"));
    assert!(!rendered.contains("syntax parse issue detected"));
}

#[test]
fn markers_and_debug_macros_inside_strings_are_ignored() {
    let name = "lib.rs";
    let content = r#"fn main() {
let _ = "<<<<<<< ours *** Begin Patch TODO_REMOVE dbg!(x) todo!() unimplemented!()";
}
"#;

    let report = report_on(name, content);

    assert!(report.is_none());
}

#[test]
fn rust_lifetimes_do_not_poison_delimiter_scan() {
    let name = "lib.rs";
    let content = r#"fn operation_kind() -> &'static str {
assert!(output.contains("\"decision\":\"block\""));
"ok"
}
"#;

    let report = report_on(name, content);

    assert!(report.is_none());
}

#[test]
fn missing_binary_and_non_code_files_fail_open() {
    let patch =
        "*** Update File: /work/missing.rs\n*** Update File: /work/data.rs\n*** Update File: /work/note.bin";
    let paths = touched_paths_from_apply_patch(patch, None).unwrap();
    assert_eq!(paths, vec!["/work/missing.rs", "/work/data.rs", "/work/note.bin"]);
    let binary: Vec<u8> = b"abc\0def".to_vec();
    let text: Vec<u8> = b"<<<<<<< not checked\n".to_vec();

    let report = check_apply_patch_command(vec![
        check_file(&paths[0], false, 0, Vec::new()),
        check_file(&paths[1], true, binary.len() as u64, binary),
        check_file(&paths[2], true, text.len() as u64, text),
    ]);

    assert!(report.is_none());
}

#[test]
fn failed_tool_response_is_not_successful() {
    assert!(apply_patch_succeeded(Some("{\"output\":\"Done!\"}")));
    assert!(!apply_patch_succeeded(Some("{\"error\":\"patch failed\"}")));
    assert!(!apply_patch_succeeded(None));
}

#[test]
fn success_is_read_in_the_compact_notation() {
    assert!(!apply_patch_succeeded(Some("not json")));
    assert!(!apply_patch_succeeded(Some("{ \"output\" : \"it FAILED\" }")));
    assert!(apply_patch_succeeded(Some("[ 1 ]")));
}

#[test]
fn report_text_is_exact() {
    let report = report_on("lib.rs", "fn main() {\n<<<<<<< ours\n}\n").unwrap();

    assert_eq!(report.findings[0].path, "/work/lib.rs");
    assert_eq!(report.findings[0].line, Some(2));
    assert_eq!(report.findings[0].severity, Severity::Error);
    assert_eq!(
        report.render().lines().next(),
        Some("Edited files were already changed on disk. Slowcatch found issues to fix before continuing:")
    );
}

#[test]
fn reports_hold_no_more_than_allowed() {
    let finding = Finding {
        path: "a.rs".to_string(),
        line: None,
        severity: Severity::Warning,
        message: "m".to_string(),
    };
    let many: Vec<Finding> = (0..15).map(|_| finding.clone()).collect();

    let report = check_apply_patch_command(vec![many.clone(), many]).unwrap();

    assert_eq!(report.findings.len(), MAX_FINDINGS);
    assert!(check_apply_patch_command(Vec::new()).is_none());
}

#[test]
fn patches_touch_no_more_files_than_allowed() {
    let patch: String =
        (0..30).map(|index| format!("*** Add File: /work/f{index}.rs\n")).collect();

    let paths = touched_paths_from_apply_patch(&patch, None).unwrap();

    assert_eq!(paths.len(), MAX_FILES_TO_CHECK);
    assert_eq!(paths[0], "/work/f0.rs");
    assert!(touched_paths_from_apply_patch("*** Delete File: /work/a.rs", None).is_none());
}

#[test]
fn large_files_are_not_checked() {
    let text: Vec<u8> = b"<<<<<<< ours\n".to_vec();

    assert!(check_file("/work/a.rs", true, 1_000_001, text.clone()).is_empty());
    assert!(!check_file("/work/a.rs", true, 1_000_000, text).is_empty());
}

#[test]
fn masks_keep_every_position_and_every_line() {
    let text = "a = '''x\ny''' # note\nb = [1]\n";
    for masked in [mask_python(text), mask_json_like(text, true), mask_html_xml(text)] {
        assert_eq!(masked.chars().count(), text.chars().count());
        for (before, after) in text.chars().zip(masked.chars()) {
            assert!(after == before || (after == ' ' && before != '\n'));
        }
    }
    assert!(mask_python(text).ends_with("\nb = [1]\n"));
    assert!(!mask_python(text).contains("note"));
    assert_eq!(mask_markdown("a\n```\n<<<<<<<\n```\nb\n").lines().count(), 5);
}

#[test]
fn checker_source_strings_do_not_report_own_rules() {
    let source = r##"fn check_line_markers(path: &Path, text: &str) -> Vec<Finding> {
    let mut findings = Vec::new();
    for (index, line) in text.lines().enumerate() {
        let line_number = index + 1;
        let message =
            if line.contains("<<<<<<<") || line.contains("=======") || line.contains(">>>>>>>") {
                Some(("git conflict marker", Severity::Error))
            } else if line.contains("*** Begin Patch") || line.contains("*** End Patch") {
                Some(("patch marker left in file", Severity::Error))
            } else if line.contains("TODO_REMOVE") || line.contains("FIXME_REMOVE") {
                Some(("remove placeholder before continuing", Severity::Error))
            } else {
                None
            };
        if let Some((message, severity)) = message {
            findings.push(Finding {
                path: path.to_path_buf(),
                line: Some(line_number),
                severity,
                message: message.to_string(),
            });
        }
    }
    findings
}

fn check_rust_debug_macros(path: &Path, text: &str) -> Vec<Finding> {
    let mut findings = Vec::new();
    for (index, line) in text.lines().enumerate() {
        let message = if line.contains("dbg!(") {
            Some("debug macro `dbg!` left in Rust file")
        } else if line.contains("todo!()") {
            Some("placeholder macro `todo!()` left in Rust file")
        } else if line.contains("unimplemented!()") {
            Some("placeholder macro `unimplemented!()` left in Rust file")
        } else {
            None
        };
        if let Some(message) = message {
            findings.push(Finding {
                path: path.to_path_buf(),
                line: Some(index + 1),
                severity: Severity::Warning,
                message: message.to_string(),
            });
        }
    }
    findings
}

fn has_delimiter_error(findings: &[Finding]) -> bool {
    findings.iter().any(|finding| {
        finding.severity == Severity::Error
            && (finding.message.contains("delimiter")
                || finding.message.contains("unclosed delimiter"))
    })
}
"##;
    let bytes = source.as_bytes().to_vec();

    let findings = check_file("src/integrations/post_edit_check.rs", true, bytes.len() as u64, bytes);

    assert!(findings.is_empty(), "unexpected self findings: {:?}", findings);
}

#[test]
fn files_of_one_patch_stay_apart() {
    let patch = "*** Update File: src\\a.rs\n*** Update File: src\\b.rs\n*** Update File: src\\a.rs\n";

    let paths = touched_paths_from_apply_patch(patch, Some("C:\\repo")).unwrap();

    assert_eq!(paths, vec![join("C:\\repo", "src\\a.rs"), join("C:\\repo", "src\\b.rs")]);
}

#[test]
fn absolute_paths_in_a_patch_stay_as_they_are() {
    let patch = "*** Update File: /other/a.rs\n*** Update File: b.rs\n";

    assert_eq!(
        touched_paths_from_apply_patch(patch, Some("/work")).unwrap(),
        vec![join("/work", "/other/a.rs"), join("/work", "b.rs")]
    );
    assert_eq!(
        touched_paths_from_apply_patch("*** Update File: b.rs\n", None),
        None
    );
}

#[test]
fn deleted_files_are_left_out_wherever_they_are_named() {
    let patch = "*** Delete File: a.rs\n*** Add File: a.rs\n*** Add File: b.rs\n*** Add File: c.rs\n*** Update File: c.rs\n*** Delete File: b.rs\n";

    for root in ["/work", "C:\\repo", "C:\\repo\\"] {
        assert_eq!(
            touched_paths_from_apply_patch(patch, Some(root)).unwrap(),
            vec![join(root, "c.rs")]
        );
    }
    assert_eq!(
        touched_paths_from_apply_patch("*** Add File: a.rs\n*** Delete File: a.rs\n", Some("/w")),
        None
    );
}

#[test]
fn files_with_windows_paths_are_checked() {
    let bytes = b"fn main() {\n<<<<<<< ours\n}\n".to_vec();

    let findings = check_file("C:\\repo\\src\\main.rs", true, bytes.len() as u64, bytes);

    assert!(!findings.is_empty());
    assert_eq!(language_for_path("C:\\repo\\src\\main.rs"), QuickCheckLanguage::Rust);
}
