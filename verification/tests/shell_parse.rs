use slowcatch::backends::everything::FindQuery;
use slowcatch::backends::projection::Projection;
use slowcatch::shell_parse::{
    classify_powershell, parse_powershell, FastOperation, ParseDecision, PassThroughReason,
};

#[test]
fn parses_recursive_filter_find() {
    let operation = parse_powershell(
        "Get-ChildItem C:\\repo -Recurse -Filter *.rs",
        Some("C:\\fallback"),
    )
    .unwrap();

    assert_eq!(
        operation,
        FastOperation::Find(FindQuery {
            root: Some("C:\\repo".to_string()),
            pattern: "*.rs".to_string(),
            files_only: true,
            limit: 80,
        })
    );
}

#[test]
fn parses_select_string_path_pattern() {
    let operation = parse_powershell(
        "Select-String -Path C:\\repo\\*.txt -Pattern needle",
        Some("C:\\repo"),
    )
    .unwrap();

    match operation {
        FastOperation::Grep(query) => {
            assert_eq!(query.pattern, "needle");
            assert_eq!(query.roots, vec!["C:\\repo\\*.txt".to_string()]);
        }
        other => panic!("unexpected operation: {other:?}"),
    }
}

#[test]
fn parses_get_child_item_pipe_select_string() {
    let operation = parse_powershell(
        "Get-ChildItem C:\\repo -Recurse -Filter *.txt | Select-String -Pattern needle",
        Some("C:\\fallback"),
    )
    .unwrap();

    match operation {
        FastOperation::Grep(query) => {
            assert_eq!(query.pattern, "needle");
            assert_eq!(query.roots, vec!["C:\\repo".to_string()]);
        }
        other => panic!("unexpected operation: {other:?}"),
    }
}

#[test]
fn parses_get_content_slice() {
    let operation = parse_powershell(
        "Get-Content C:\\repo\\file.txt | Select-Object -Skip 2 -First 3",
        None,
    )
    .unwrap();

    assert_eq!(
        operation,
        FastOperation::Slice {
            path: "C:\\repo\\file.txt".to_string(),
            skip: 2,
            first: 3,
        }
    );
}

#[test]
fn fail_opens_for_mutating_commands() {
    assert!(parse_powershell("Remove-Item C:\\repo -Recurse", Some("C:\\repo")).is_none());
}

#[test]
fn classifies_supported_commands_as_fast() {
    assert!(matches!(
        classify_powershell("gci C:\\repo -Recurse -Filter *.rs", Some("C:\\repo")),
        ParseDecision::Fast(FastOperation::Find(_))
    ));
    assert!(matches!(
        classify_powershell(
            "Select-String -Path C:\\repo\\*.rs -Pattern needle",
            Some("C:\\repo")
        ),
        ParseDecision::Fast(FastOperation::Grep(_))
    ));
    assert!(matches!(
        classify_powershell(
            "Get-Content C:\\repo\\file.txt | Select-Object -Skip 2 -First 3",
            Some("C:\\repo")
        ),
        ParseDecision::Fast(FastOperation::Slice { .. })
    ));
}

#[test]
fn classifies_mutating_and_dynamic_commands_as_pass_through() {
    assert!(matches!(
        classify_powershell("Remove-Item C:\\repo -Recurse", Some("C:\\repo")),
        ParseDecision::PassThrough(PassThroughReason::Mutating)
    ));
    assert!(matches!(
        classify_powershell(
            "Get-ChildItem $(Get-Location) -Recurse -Filter *.rs",
            Some("C:\\repo")
        ),
        ParseDecision::PassThrough(PassThroughReason::DynamicOrUnsafe)
    ));
}

#[test]
fn classifies_external_programs_as_pass_through() {
    for command in [
        "git status",
        "rg needle .",
        "cargo test",
        "python script.py",
    ] {
        assert!(
            matches!(
                classify_powershell(command, Some("C:\\repo")),
                ParseDecision::PassThrough(PassThroughReason::ExternalProgram)
            ),
            "{command}"
        );
    }
}

#[test]
fn classifies_complex_file_pipelines_as_unknown_candidates() {
    let decision = classify_powershell(
        "gci C:\\repo -Recurse -Filter *.rs | Where-Object Name -like '*main*' | Select-String needle",
        Some("C:\\repo"),
    );

    let ParseDecision::UnknownCandidate(detail) = decision else {
        panic!("unexpected decision: {decision:?}");
    };
    assert_eq!(detail.first_command.as_deref(), Some("gci"));
    assert_eq!(
        detail.pipeline_commands,
        vec!["gci", "where-object", "select-string"]
    );
    assert!(detail.normalized_shape.contains("gci"));
}

#[test]
fn classifies_unsupported_file_commands_as_unknown_candidates() {
    for command in [
        "Get-Content C:\\repo\\file.txt | Select-String needle",
        "gci C:\\repo -Recurse | Sort-Object Name",
    ] {
        assert!(
            matches!(
                classify_powershell(command, Some("C:\\repo")),
                ParseDecision::UnknownCandidate(_)
            ),
            "{command}"
        );
    }
}

#[test]
fn parses_get_content_full_read_forms_as_inspect_file() {
    for command in [
        "Get-Content file.py",
        "Get-Content -Raw file.toml",
        "Get-Content -Path src/lib.rs",
        "Get-Content -LiteralPath 'x.md'",
        "gc x.txt",
    ] {
        assert!(
            matches!(
                classify_powershell(command, Some("C:\\repo")),
                ParseDecision::Fast(FastOperation::InspectFile { .. })
            ),
            "{command}"
        );
    }
}

#[test]
fn parses_select_string_context_forms() {
    assert!(matches!(
        classify_powershell(
            "Get-Content file.txt | Select-String -Pattern needle -Context 2,3",
            Some("C:\\repo")
        ),
        ParseDecision::Fast(FastOperation::GrepContext(_))
    ));
    assert!(matches!(
        classify_powershell(
            "Select-String -Path file.txt -Pattern needle -Context 0,1",
            Some("C:\\repo")
        ),
        ParseDecision::Fast(FastOperation::GrepContext(_))
    ));
    assert!(matches!(
        classify_powershell(
            "Select-String -LiteralPath 'D:\\Github\\Project_Aetherflow\\论文\\答辩材料\\web-video\\presentation\\src\\styles\\base.css' -Pattern 'scene-pad|masthead|kicker|stage-frame|serif|label-mono|dot-accent|card|hero-num' -Context 0,2",
            Some("C:\\repo")
        ),
        ParseDecision::Fast(FastOperation::GrepContext(_))
    ));
}

#[test]
fn parses_find_projection_forms() {
    assert!(matches!(
        classify_powershell(
            "Get-ChildItem -Recurse -Filter AGENTS.md | Select-Object -ExpandProperty FullName",
            Some("C:\\repo")
        ),
        ParseDecision::Fast(FastOperation::FindProjection(_))
    ));
    assert!(matches!(
        classify_powershell(
            "Get-ChildItem -Recurse -Filter *.rs | Select-Object FullName,Length,LastWriteTime | Format-Table -AutoSize",
            Some("C:\\repo")
        ),
        ParseDecision::Fast(FastOperation::FindProjection(_))
    ));
    assert!(matches!(
        classify_powershell(
            "Get-ChildItem -LiteralPath 'E:\\GitHub\\slowcatch' -Recurse -Filter AGENTS.md | Select-Object FullName,Length | Format-List",
            Some("C:\\repo")
        ),
        ParseDecision::Fast(FastOperation::FindProjection(_))
    ));
}

#[test]
fn parses_direct_literal_path_projection_forms() {
    let decision = classify_powershell(
        "Get-ChildItem -LiteralPath 'E:\\GitHub\\slowcatch\\target\\release\\slowcatch.exe','C:\\Users\\hxf53\\.codex\\bin\\slowcatch.exe' -ErrorAction SilentlyContinue | Select-Object FullName,Length,LastWriteTime | Format-List",
        Some("C:\\repo"),
    );

    let ParseDecision::Fast(FastOperation::DirectProjection { paths, projection }) = decision
    else {
        panic!("unexpected decision: {decision:?}");
    };
    assert_eq!(paths.len(), 2);
    assert!(matches!(projection, Projection::Metadata { .. }));
}

#[test]
fn parses_find_where_sort_select_pipeline() {
    let decision = classify_powershell(
        "Get-ChildItem C:\\repo -Recurse -Filter * | Where-Object Name -like *.rs | Sort-Object LastWriteTime -Descending | Select-Object -First 20 FullName,Length",
        Some("C:\\repo"),
    );

    let ParseDecision::Fast(FastOperation::FindPipeline(pipeline)) = decision else {
        panic!("unexpected decision: {decision:?}");
    };
    assert_eq!(pipeline.limit, Some(20));
    assert!(pipeline.where_filter.is_some());
    assert!(pipeline.sort.is_some());
    assert!(matches!(pipeline.projection, Projection::Metadata { .. }));
}

#[test]
fn parses_find_where_select_pipeline_with_braced_member_access() {
    let decision = classify_powershell(
        "gci C:\\repo -Recurse | ? { $_.Extension -eq .toml } | select -First 5 -ExpandProperty FullName",
        Some("C:\\repo"),
    );

    assert!(matches!(
        decision,
        ParseDecision::Fast(FastOperation::FindPipeline(_))
    ));
}

#[test]
fn parses_find_measure_pipelines() {
    assert!(matches!(
        classify_powershell(
            "Get-ChildItem C:\\repo -Recurse -Filter *.rs | Measure-Object",
            Some("C:\\repo")
        ),
        ParseDecision::Fast(FastOperation::FindMeasure(_))
    ));
    assert!(matches!(
        classify_powershell(
            "gci C:\\repo -Recurse | ? Extension -eq .rs | measure Length -Sum -Minimum -Maximum",
            Some("C:\\repo")
        ),
        ParseDecision::Fast(FastOperation::FindMeasure(_))
    ));
}

#[test]
fn parses_safe_command_list_with_readonly_git() {
    let decision = classify_powershell(
        "Get-ChildItem -Force -Filter AGENTS.md; git status --short",
        Some("C:\\repo"),
    );

    let ParseDecision::Fast(FastOperation::CommandList(segments)) = decision else {
        panic!("unexpected decision: {decision:?}");
    };
    assert_eq!(segments.len(), 2);
}

#[test]
fn command_list_with_unknown_external_fails_open() {
    assert!(matches!(
        classify_powershell(
            "Get-ChildItem -Force -Filter AGENTS.md; npm install",
            Some("C:\\repo")
        ),
        ParseDecision::UnknownCandidate(_)
    ));
}

#[test]
fn parses_guarded_test_path_get_content_as_mini_script() {
    let command = r#"if (Test-Path "D:\Github\Project_Aetherflow\FLASHBACK.md") { Get-Content -Raw "D:\Github\Project_Aetherflow\FLASHBACK.md" }"#;

    assert!(matches!(
        classify_powershell(command, Some("D:\\Github\\Project_Aetherflow")),
        ParseDecision::Fast(FastOperation::MiniScript(_))
    ));
}

#[test]
fn parses_literal_variable_guard_as_mini_script() {
    let command = r#"$p = "D:\Github\Project_Aetherflow\FLASHBACK.md"; if (Test-Path $p) { Get-Content -Raw $p }"#;

    assert!(matches!(
        classify_powershell(command, Some("D:\\Github\\Project_Aetherflow")),
        ParseDecision::Fast(FastOperation::MiniScript(_))
    ));
}

#[test]
fn parses_elseif_else_and_boolean_test_path_tree_as_mini_script() {
    let command = r#"$a = "C:\repo\a.md"; $b = "C:\repo\b.md"; if ((Test-Path $a -PathType Leaf) -and -not (Test-Path $b)) { Get-Content $a } elseif (!(Test-Path $a) -or (Test-Path $b)) { Get-Content $b } else { git status --short }"#;

    assert!(matches!(
        classify_powershell(command, Some("C:\\repo")),
        ParseDecision::Fast(FastOperation::MiniScript(_))
    ));
}

#[test]
fn mini_script_reuses_existing_fast_path_body_parsers() {
    let command = r#"if (Test-Path "C:\repo") { Get-ChildItem C:\repo -Recurse -Filter *.rs | Select-Object -ExpandProperty FullName; Select-String -Path C:\repo\*.rs -Pattern needle }"#;

    assert!(matches!(
        classify_powershell(command, Some("C:\\repo")),
        ParseDecision::Fast(FastOperation::MiniScript(_))
    ));
}

#[test]
fn mini_script_allows_readonly_git_diff_body() {
    let command = r#"if (Test-Path "C:\repo") { git diff --stat }"#;

    assert!(matches!(
        classify_powershell(command, Some("C:\\repo")),
        ParseDecision::Fast(FastOperation::MiniScript(_))
    ));
}

#[test]
fn mini_script_rejects_unsafe_or_ambiguous_shapes() {
    for command in [
        r#"if (Test-Path "C:\repo\*.md") { Get-Content "C:\repo\a.md" }"#,
        r#"if (Test-Path $p) { Get-Content $p }"#,
        r#"$p = "C:\repo\a.md"; if (Test-Path $p) { Remove-Item $p }"#,
        r#"$p = "$env:USERPROFILE\a.md"; if (Test-Path $p) { Get-Content $p }"#,
        r#"if (Test-Path "C:\repo\a.md") { if (Test-Path "C:\repo\b.md") { Get-Content "C:\repo\b.md" } }"#,
        r#"if (Test-Path $(Get-Location)) { Get-Content file.txt }"#,
    ] {
        assert!(
            !matches!(
                classify_powershell(command, Some("C:\\repo")),
                ParseDecision::Fast(FastOperation::MiniScript(_))
            ),
            "{command}"
        );
    }
}

fn is_fast(command: &str) -> bool {
    matches!(classify_powershell(command, Some("C:\\repo")), ParseDecision::Fast(_))
}

#[test]
fn lists_that_change_something_are_never_fast() {
    for command in [
        "Get-ChildItem -Force -Filter AGENTS.md; Get-ChildItem -Force -Filter b.md > out.txt",
        "Get-ChildItem -Force -Filter AGENTS.md > out.txt; git status --short",
        "Get-ChildItem -Force -Filter AGENTS.md; git status --short > out.txt",
        "Get-ChildItem -Force -Filter AGENTS.md; Remove-Item b.txt",
        "sls needle a.txt; rm b.txt",
        "Get-Content a.txt -TotalCount 3; rm b.txt",
    ] {
        assert!(!is_fast(command), "{command}");
    }
    assert!(matches!(
        classify_powershell(
            "Get-ChildItem -Force -Filter AGENTS.md; git status --short > out.txt",
            Some("C:\\repo")
        ),
        ParseDecision::PassThrough(PassThroughReason::Mutating)
    ));
    assert!(is_fast("Get-ChildItem -Force -Filter AGENTS.md; git status --short"));
}

#[test]
fn lists_with_a_dynamic_sign_are_refused() {
    for command in [
        "Get-ChildItem -Force -Filter AGENTS.md; Get-ChildItem $(pwd) -Force -Filter b.md",
        "Get-ChildItem -Force -Filter `AGENTS.md; git status --short",
        "Get-Content \u{130}\u{e9}.txt -TotalCount $(1)",
        "Get-ChildItem \u{130} -Recurse -Filter `*.rs",
    ] {
        assert!(
            matches!(
                classify_powershell(command, Some("C:\\repo")),
                ParseDecision::PassThrough(PassThroughReason::DynamicOrUnsafe)
            ),
            "{command}"
        );
    }
}

#[test]
fn semicolons_in_quotes_are_no_list() {
    assert!(matches!(
        classify_powershell("Select-String -Path C:\\repo\\a.txt -Pattern 'a; b'", Some("C:\\repo")),
        ParseDecision::Fast(FastOperation::Grep(_))
    ));
}

#[test]
fn quoted_redirection_signs_are_no_redirection_in_a_list() {
    let decision = classify_powershell(
        "Select-String -Path a.rs -Pattern '->'; git status --short",
        Some("C:\\repo"),
    );
    let ParseDecision::Fast(FastOperation::CommandList(segments)) = decision else {
        panic!("unexpected decision: {decision:?}");
    };
    assert_eq!(segments.len(), 2);

    for command in [
        "Select-String -Path a.rs -Pattern '->'",
        "Select-String -Path a.rs -Pattern '->'; npm install",
        "Select-String -Path a.rs -Pattern '->' > out.txt; git status --short",
        "Select-String -Path a.rs -Pattern '->'; git status --short > 'out.txt'",
    ] {
        assert!(
            matches!(
                classify_powershell(command, Some("C:\\repo")),
                ParseDecision::PassThrough(PassThroughReason::Mutating)
            ),
            "{command}"
        );
    }
}
