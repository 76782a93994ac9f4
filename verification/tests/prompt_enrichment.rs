use slowcatch::backends::everything::{lend, FileFinder, FindQuery};
use slowcatch::error::BackendError;
use slowcatch::prompt_enrichment::{
    detect_uuid_like_values, enrich_prompt, enrich_prompt_with_enrichers, enrich_prompt_with_paths,
    render_references_with_debug, select_references, PromptEnricher, PromptReferences,
    ReferenceGroup, ReferenceTotal, UuidPathLookupDetector, BACKEND_QUERY_LIMIT,
    MAX_CONTEXT_BYTES,
};
use std::sync::Mutex;

struct QueryRecordingFinder {
    paths: Vec<String>,
    queries: Mutex<Vec<FindQuery>>,
}

impl QueryRecordingFinder {
    fn new(paths: Vec<String>) -> Self {
        Self {
            paths,
            queries: Mutex::new(Vec::new()),
        }
    }

    fn query_count(&self) -> usize {
        self.queries.lock().unwrap().len()
    }
}

impl FileFinder for QueryRecordingFinder {
    fn find(&self, query: &FindQuery) -> Result<Vec<String>, BackendError> {
        self.queries.lock().unwrap().push(query.clone());
        Ok(self.paths.clone())
    }
}

struct FailingFinder;

impl FileFinder for FailingFinder {
    fn find(&self, _query: &FindQuery) -> Result<Vec<String>, BackendError> {
        Err(BackendError::new("backend unavailable"))
    }
}

#[test]
fn prompt_without_uuid_has_no_enrichment() {
    let finder = QueryRecordingFinder::new(vec![]);

    let output = enrich_prompt("hello world", &finder, false);

    assert!(output.is_none());
    assert_eq!(finder.query_count(), 0);
}

#[test]
fn single_uuid_outputs_up_to_five_paths() {
    let uuid = "019e0b7c-4f63-7bc1-8d24-0586a9098481";
    let finder = QueryRecordingFinder::new(
        (0..8)
            .map(|index| format!("C:\\repo\\file-{index}-{uuid}.jsonl"))
            .collect(),
    );

    let output = enrich_prompt(&format!("look up {uuid}"), &finder, false).unwrap();

    assert!(output.starts_with("slowcatch_refs v1 paths_only"));
    assert!(output.contains(&format!("uuid:{uuid} [5/8]")));
    assert_eq!(output.lines().filter(|line| line.contains(uuid)).count(), 6);
    assert_no_verbose_fields(&output);
    assert_eq!(finder.query_count(), 1);
}

#[test]
fn uuid_followed_by_chinese_text_is_detected() {
    let uuid = "019e0b7c-4f63-7bc1-8d24-0586a9098481";
    let finder = QueryRecordingFinder::new(vec![
        "C:\\repo\\rollout-019e0b7c-4f63-7bc1-8d24-0586a9098481.jsonl".to_string(),
    ]);

    let output = enrich_prompt(&format!("{uuid}测试"), &finder, false).unwrap();

    assert!(output.contains(&format!("uuid:{uuid} [1/1]")));
    assert_eq!(finder.query_count(), 1);
}

#[test]
fn uuid_embedded_in_longer_hex_or_hyphen_sequence_is_ignored() {
    let uuid = "019e0b7c-4f63-7bc1-8d24-0586a9098481";
    let finder = QueryRecordingFinder::new(vec![
        "C:\\repo\\rollout-019e0b7c-4f63-7bc1-8d24-0586a9098481.jsonl".to_string(),
    ]);

    assert!(enrich_prompt(&format!("a{uuid}"), &finder, false).is_none());
    assert!(enrich_prompt(&format!("{uuid}-tail"), &finder, false).is_none());
    assert_eq!(finder.query_count(), 0);
}

#[test]
fn multiple_uuids_output_up_to_three_paths_each_and_dedupe() {
    let uuid_a = "019e0b7c-4f63-7bc1-8d24-0586a9098481";
    let uuid_b = "119e0b7c-4f63-7bc1-8d24-0586a9098481";
    let finder = QueryRecordingFinder::new(
        (0..8)
            .map(|index| format!("C:\\repo\\file-{index}.jsonl"))
            .collect(),
    );

    let output = enrich_prompt(&format!("{uuid_a} {uuid_b} {uuid_a}"), &finder, false).unwrap();

    assert!(output.contains(&format!("uuid:{uuid_a} [3/8]")));
    assert!(output.contains(&format!("uuid:{uuid_b} [3/8]")));
    assert_eq!(
        output
            .lines()
            .filter(|line| line.starts_with("C:\\repo\\file-"))
            .count(),
        6
    );
    assert_no_verbose_fields(&output);
    assert_eq!(finder.query_count(), 2);
}

#[test]
fn more_than_five_uuids_are_truncated_without_verbose_output() {
    let prompt = (0..6)
        .map(|index| format!("{index:08x}-4f63-7bc1-8d24-0586a9098481"))
        .collect::<Vec<_>>()
        .join(" ");
    let finder = QueryRecordingFinder::new(vec!["C:\\repo\\match.jsonl".to_string()]);

    let output = enrich_prompt(&prompt, &finder, false).unwrap();

    assert!(!output.contains("uuid_limit=5"));
    assert_eq!(
        output
            .lines()
            .filter(|line| line.starts_with("uuid:"))
            .count(),
        5
    );
    assert_eq!(finder.query_count(), 5);
}

#[test]
fn capped_backend_count_renders_with_plus_suffix() {
    let uuid = "019e0b7c-4f63-7bc1-8d24-0586a9098481";
    let finder = QueryRecordingFinder::new(
        (0..BACKEND_QUERY_LIMIT)
            .map(|index| format!("C:\\repo\\file-{index}-{uuid}.jsonl"))
            .collect(),
    );

    let output = enrich_prompt(&format!("look up {uuid}"), &finder, false).unwrap();

    assert!(output.contains(&format!("uuid:{uuid} [5/{BACKEND_QUERY_LIMIT}+]")));
    assert_no_verbose_fields(&output);
}

#[test]
fn uuid_with_no_matches_produces_no_enrichment() {
    let uuid = "019e0b7c-4f63-7bc1-8d24-0586a9098481";
    let finder = QueryRecordingFinder::new(vec![]);

    let output = enrich_prompt(&format!("look up {uuid}"), &finder, false);

    assert!(output.is_none());
    assert_eq!(finder.query_count(), 1);
}

#[test]
fn backend_failure_fails_open() {
    let output = enrich_prompt("019e0b7c-4f63-7bc1-8d24-0586a9098481", &FailingFinder, false);

    assert!(output.is_none());
}

fn assert_no_verbose_fields(output: &str) {
    for field in [
        "detector=",
        "search=",
        "files_read=",
        "matches=",
        "showing=",
        "omitted_at_least=",
    ] {
        assert!(
            !output.contains(field),
            "{field} should not be in compact output"
        );
    }
}

struct StaticEnricher {
    title: &'static str,
    group: ReferenceGroup,
    debug_lines: Vec<String>,
}

impl PromptEnricher for StaticEnricher {
    fn name(&self) -> &'static str {
        self.title
    }

    fn enrich(
        &self,
        _prompt: &str,
        _finder: &dyn FileFinder,
    ) -> Result<Option<PromptReferences>, BackendError> {
        Ok(Some(PromptReferences {
            groups: vec![self.group.clone()],
            debug_lines: self.debug_lines.clone(),
        }))
    }
}

struct FailingEnricher;

impl PromptEnricher for FailingEnricher {
    fn name(&self) -> &'static str {
        "failing"
    }

    fn enrich(
        &self,
        _prompt: &str,
        _finder: &dyn FileFinder,
    ) -> Result<Option<PromptReferences>, BackendError> {
        Err(BackendError::new("expected test failure"))
    }
}

#[test]
fn independent_enricher_failure_does_not_hide_successful_enricher() {
    let finder = QueryRecordingFinder::new(vec![]);
    let failing = FailingEnricher;
    let successful = StaticEnricher {
        title: "static",
        group: ReferenceGroup {
            kind: "static".to_string(),
            key: "ok".to_string(),
            items: vec!["C:\\repo\\ok.txt".to_string()],
            total: ReferenceTotal::Exact(1),
            debug_lines: vec!["line=ok".to_string()],
        },
        debug_lines: vec!["section=ok".to_string()],
    };

    let output =
        enrich_prompt_with_enrichers("prompt", &finder, &[&failing, &successful], false).unwrap();

    assert!(output.contains("static:ok [1/1]"));
    assert!(output.contains("C:\\repo\\ok.txt"));
    assert!(!output.contains("line=ok"));
    assert!(!output.contains("detector=failing"));
}

#[test]
fn rendered_context_is_capped() {
    let finder = QueryRecordingFinder::new(vec![]);
    let long = StaticEnricher {
        title: "long",
        group: ReferenceGroup {
            kind: "long".to_string(),
            key: "key".to_string(),
            items: vec!["x".repeat(MAX_CONTEXT_BYTES * 2)],
            total: ReferenceTotal::Exact(1),
            debug_lines: vec![],
        },
        debug_lines: vec![],
    };

    let output = enrich_prompt_with_enrichers("prompt", &finder, &[&long], false).unwrap();

    assert!(output.len() <= MAX_CONTEXT_BYTES);
    assert!(output.contains("truncated=context byte cap reached"));
}

#[test]
fn debug_rendering_includes_detector_diagnostics() {
    let references = PromptReferences {
        groups: vec![ReferenceGroup {
            kind: "uuid".to_string(),
            key: "019e0b7c-4f63-7bc1-8d24-0586a9098481".to_string(),
            items: vec!["C:\\repo\\match.jsonl".to_string()],
            total: ReferenceTotal::Exact(1),
            debug_lines: vec![
                "uuid=019e0b7c-4f63-7bc1-8d24-0586a9098481 matches=1 showing=1".to_string(),
            ],
        }],
        debug_lines: vec![
            "search=Everything path/name only".to_string(),
            "files_read=false".to_string(),
        ],
    };

    let output = render_references_with_debug(&[("uuid_path_lookup", references)], true)
        .expect("debug output");

    assert!(output.contains("slowcatch_refs v1 paths_only"));
    assert!(output.contains("debug=1"));
    assert!(output.contains("detector=uuid_path_lookup"));
    assert!(output.contains("search=Everything path/name only"));
    assert!(output.contains("files_read=false"));
    assert!(output.contains("matches=1 showing=1"));
}

#[test]
fn context_text_is_exact() {
    let uuid = "019e0b7c-4f63-7bc1-8d24-0586a9098481";
    let found = vec![vec!["C:\\repo\\a.jsonl".to_string(), "C:\\repo\\b.jsonl".to_string()]];

    let output = enrich_prompt_with_paths(&format!("look up {uuid}"), &found, false).unwrap();

    assert_eq!(
        output,
        format!("slowcatch_refs v1 paths_only\nuuid:{uuid} [2/2]\nC:\\repo\\a.jsonl\nC:\\repo\\b.jsonl")
    );
}

#[test]
fn detected_values_are_distinct_and_in_order() {
    let detection = detect_uuid_like_values(
        "119e0b7c-4f63-7bc1-8d24-0586a9098481 019e0b7c-4f63-7bc1-8d24-0586a9098481 119E0B7C-4F63-7BC1-8D24-0586A9098481",
    );

    assert_eq!(
        detection.values,
        vec![
            "119e0b7c-4f63-7bc1-8d24-0586a9098481".to_string(),
            "019e0b7c-4f63-7bc1-8d24-0586a9098481".to_string(),
        ]
    );
    assert!(!detection.truncated);
}

#[test]
fn only_what_was_found_is_selected() {
    let found = |key: &str| PromptReferences {
        groups: vec![ReferenceGroup {
            kind: "static".to_string(),
            key: key.to_string(),
            items: vec!["a.txt".to_string()],
            total: ReferenceTotal::Exact(1),
            debug_lines: Vec::new(),
        }],
        debug_lines: Vec::new(),
    };

    let selected = select_references(vec![
        ("first", Ok(Some(found("one")))),
        ("second", Err(BackendError::new("backend unavailable"))),
        ("third", Ok(None)),
        ("fourth", Ok(Some(found("two")))),
    ]);

    let names: Vec<&str> = selected.iter().map(|(name, _)| *name).collect();
    assert_eq!(names, vec!["first", "fourth"]);
    assert_eq!(selected[0].1.groups[0].key, "one");
    assert_eq!(selected[1].1.groups[0].key, "two");
    assert!(select_references(vec![("failing", Err(BackendError::new("no")))]).is_empty());
}

#[test]
fn finder_is_asked_for_each_value_in_order() {
    let values: Vec<String> =
        (0..6).map(|index| format!("{index:08x}-4f63-7bc1-8d24-0586a9098481")).collect();
    let prompt = values.join(" ");
    let expected: Vec<FindQuery> = values
        .iter()
        .take(5)
        .map(|value| FindQuery {
            root: None,
            pattern: value.clone(),
            files_only: true,
            limit: BACKEND_QUERY_LIMIT,
        })
        .collect();
    let found = vec!["C:\\repo\\match.jsonl".to_string()];

    let finder = QueryRecordingFinder::new(found.clone());
    let context = enrich_prompt(&prompt, &finder, false);
    assert_eq!(*finder.queries.lock().unwrap(), expected);
    assert_eq!(context, enrich_prompt_with_paths(&prompt, &vec![found.clone(); 5], false));

    let finder = QueryRecordingFinder::new(found);
    let detector = UuidPathLookupDetector;
    assert_eq!(enrich_prompt_with_enrichers(&prompt, &finder, &[&detector], false), context);
    assert_eq!(*finder.queries.lock().unwrap(), expected);
}

#[test]
fn lent_finders_give_what_the_lender_gives() {
    let query = FindQuery {
        root: None,
        pattern: "a".to_string(),
        files_only: false,
        limit: 3,
    };
    let finder = QueryRecordingFinder::new(vec!["a.txt".to_string()]);

    assert_eq!(lend(&finder).find(&query).unwrap(), vec!["a.txt".to_string()]);
    assert_eq!(*finder.queries.lock().unwrap(), vec![query.clone()]);
    assert_eq!(lend(&FailingFinder).find(&query).unwrap_err().message, "backend unavailable");
}
