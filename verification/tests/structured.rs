use slowcatch::cli::{
    backend_limit, find_records, grep_records, show_records, slice_records, Listing, RecordArgs,
};
use slowcatch::backends::grep::GrepMatch;
use slowcatch::backends::slice::slice_lines;
use slowcatch::structured::{
    apply_options, grep_record_from, path_record, path_record_from, render_records, slice_record,
    validate_columns, FieldValue, OutputFormat, Record, RecordOptions, StructuredError, WhereClause,
};

fn text(record: &Record, column: &str) -> String {
    record.text(column).unwrap()
}

fn windows_record(path: &str) -> Record {
    let at = path.rfind('\\').unwrap();
    path_record_from(path, &path[at + 1..], &path[..at])
}

#[test]
fn path_records_include_file_parts() {
    let record = windows_record("E:\\repo\\src\\main.rs");

    assert_eq!(text(&record, "name"), "main.rs");
    assert_eq!(text(&record, "extension"), ".rs");
    assert_eq!(text(&record, "parent"), "E:\\repo\\src");

    let record = path_record("/repo/src/main.rs");
    assert_eq!(text(&record, "name"), "main.rs");
    assert_eq!(text(&record, "extension"), ".rs");
    assert_eq!(text(&record, "parent"), "/repo/src");
}

#[test]
fn options_filter_sort_limit_and_select_records() {
    let records = vec![
        windows_record("E:\\repo\\b.txt"),
        windows_record("E:\\repo\\a.rs"),
        windows_record("E:\\repo\\c.rs"),
    ];
    let options = RecordOptions {
        select: Some(vec!["name".to_string(), "extension".to_string()]),
        where_clause: Some(WhereClause::Equals {
            column: "extension".to_string(),
            value: ".rs".to_string(),
        }),
        sort_by: Some("name".to_string()),
        limit: Some(1),
    };

    let output = apply_options(records, &options);

    assert_eq!(output.len(), 1);
    assert_eq!(text(&output[0], "name"), "a.rs");
    assert_eq!(output[0].len(), 2);
}

#[test]
fn renders_jsonl() {
    let records = vec![slice_record(2, "hello")];
    let output = render_records(&records, OutputFormat::Jsonl, Some("text"));

    assert_eq!(output, r#"{"line_number":2,"text":"hello"}"#);
}

#[test]
fn grep_records_include_line_data_and_path_parts() {
    let record = grep_record_from(windows_record("E:\\repo\\src\\main.rs"), 7, "needle");

    assert_eq!(text(&record, "path"), "E:\\repo\\src\\main.rs");
    assert_eq!(text(&record, "name"), "main.rs");
    assert_eq!(text(&record, "extension"), ".rs");
    assert!(matches!(record.get("line_number"), Some(FieldValue::Number(7))));
    assert_eq!(text(&record, "line"), "needle");
}

#[test]
fn slice_records_include_line_number_and_text() {
    let record = slice_record(3, "three");

    assert!(matches!(record.get("line_number"), Some(FieldValue::Number(3))));
    assert_eq!(text(&record, "text"), "three");
}

#[test]
fn validates_unknown_columns() {
    let options = RecordOptions { sort_by: Some("missing".to_string()), ..Default::default() };

    let error = validate_columns(&options, &["path", "name"]).unwrap_err();

    assert!(error.message().contains("unsupported column"));
}

#[test]
fn plain_text_shows_the_main_column() {
    let records = vec![path_record("/repo/a.rs"), path_record("/repo/b.rs")];
    assert_eq!(
        render_records(&records, OutputFormat::Text, Some("path")),
        "/repo/a.rs\n/repo/b.rs"
    );
    let record = grep_record_from(path_record("/repo/a.rs"), 7, "needle");
    assert_eq!(render_records(&vec![record], OutputFormat::Text, None), "/repo/a.rs:7:needle");
}

#[test]
fn pretty_json_is_what_serde_json_writes() {
    let output = render_records(&vec![slice_record(1, "one")], OutputFormat::Json, Some("text"));

    let read: serde_json::Value = serde_json::from_str(&output).unwrap();
    assert_eq!(read[0]["line_number"], 1);
    assert_eq!(read[0]["text"], "one");
    assert_eq!(output, serde_json::to_string_pretty(&read).unwrap());
}

// The commands of the program.

fn args(output: OutputFormat) -> RecordArgs {
    RecordArgs { output, select: None, where_clause: None, sort_by: None }
}

fn lines(texts: &[&str]) -> Vec<String> {
    texts.iter().map(|text| text.to_string()).collect()
}

#[test]
fn cli_slice_outputs_raw_lines() {
    let all = lines(&["one", "two", "three", "four"]);
    let records = slice_records(&slice_lines(&all, 1, 2), 1);

    let output = show_records(records, Listing::Slice, &args(OutputFormat::Text), None).unwrap();

    assert_eq!(output, "two\nthree");
}

#[test]
fn cli_grep_outputs_path_line_text() {
    let found = vec![GrepMatch {
        path: "/work/sample.txt".to_string(),
        line_number: 2,
        line: "needle".to_string(),
    }];

    let output =
        show_records(grep_records(&found), Listing::Grep, &args(OutputFormat::Text), Some(200))
            .unwrap();

    assert!(output.contains("sample.txt:2:needle"));
}

#[test]
fn cli_slice_outputs_json_records() {
    let records = slice_records(&lines(&["one"]), 0);

    let output = show_records(records, Listing::Slice, &args(OutputFormat::Json), None).unwrap();

    let json: serde_json::Value = serde_json::from_str(&output).unwrap();
    assert_eq!(json[0]["line_number"], 1);
    assert_eq!(json[0]["text"], "one");
}

#[test]
fn cli_grep_supports_jsonl_select_where_sort_limit() {
    let mut found: Vec<GrepMatch> = Vec::new();
    for (name, line) in [("b.rs", "needle b"), ("a.rs", "needle a"), ("c.txt", "needle txt")] {
        found.push(GrepMatch {
            path: format!("/work/{name}"),
            line_number: 1,
            line: line.to_string(),
        });
    }
    let args = RecordArgs {
        output: OutputFormat::Jsonl,
        select: Some("name,line".to_string()),
        where_clause: Some("extension=.rs".to_string()),
        sort_by: Some("name".to_string()),
    };
    assert!(args.needs_expanded_scan());

    let output = show_records(grep_records(&found), Listing::Grep, &args, Some(1)).unwrap();

    assert_eq!(output.lines().count(), 1);
    let json: serde_json::Value = serde_json::from_str(output.trim()).unwrap();
    assert_eq!(json["name"], "a.rs");
    assert_eq!(json["line"], "needle a");
    assert!(json.get("path").is_none());
}

#[test]
fn find_shows_paths() {
    let records = find_records(&lines(&["/repo/a.rs", "/repo/b.rs"]));

    let output =
        show_records(records, Listing::Find, &args(OutputFormat::Text), Some(1)).unwrap();

    assert_eq!(output, "/repo/a.rs");
}

#[test]
fn sliced_lines_are_numbered_from_the_start_of_the_file() {
    let records = slice_records(&lines(&["six"]), 5);

    assert!(matches!(records[0].get("line_number"), Some(FieldValue::Number(6))));
}

#[test]
fn expanded_scans_look_at_more() {
    assert_eq!(backend_limit(80, false), 80);
    assert_eq!(backend_limit(80, true), 5_000);
    assert_eq!(backend_limit(9_000, true), 9_000);
}

#[test]
fn each_error_of_the_options_has_its_words() {
    for (args, words) in [
        (
            RecordArgs { select: Some("".to_string()), ..args(OutputFormat::Text) },
            "--select must include at least one column",
        ),
        (
            RecordArgs { where_clause: Some("name".to_string()), ..args(OutputFormat::Text) },
            "unsupported --where",
        ),
        (
            RecordArgs { sort_by: Some("a b".to_string()), ..args(OutputFormat::Text) },
            "column",
        ),
        (
            RecordArgs { sort_by: Some("line".to_string()), ..args(OutputFormat::Text) },
            "unsupported column",
        ),
    ] {
        let error = show_records(Vec::new(), Listing::Find, &args, None).unwrap_err();
        assert!(error.message().contains(words), "{}", error.message());
    }
    assert!(matches!(WhereClause::parse("name"), Err(StructuredError::UnsupportedWhere)));
}

#[test]
fn json_lists_the_columns_in_order() {
    let records = vec![path_record_from("/r/a.rs", "a.rs", "/r"), slice_record(2, "say \"hi\"\t")];

    assert_eq!(
        render_records(&records, OutputFormat::Jsonl, None),
        "{\"extension\":\".rs\",\"name\":\"a.rs\",\"parent\":\"/r\",\"path\":\"/r/a.rs\"}\n{\"line_number\":2,\"text\":\"say \\\"hi\\\"\\t\"}"
    );
    assert_eq!(
        render_records(&records, OutputFormat::Json, None),
        "[\n  {\n    \"extension\": \".rs\",\n    \"name\": \"a.rs\",\n    \"parent\": \"/r\",\n    \"path\": \"/r/a.rs\"\n  },\n  {\n    \"line_number\": 2,\n    \"text\": \"say \\\"hi\\\"\\t\"\n  }\n]"
    );
    assert_eq!(render_records(&Vec::new(), OutputFormat::Json, None), "[]");
    assert_eq!(render_records(&vec![Record::new()], OutputFormat::Json, None), "[\n  {}\n]");
}

#[test]
fn where_clauses_are_split_at_the_first_sign() {
    let Ok(WhereClause::Equals { column, value }) = WhereClause::parse("path=C:\\PROGRA~1") else {
        panic!("not an equality");
    };
    assert_eq!((column.as_str(), value.as_str()), ("path", "C:\\PROGRA~1"));

    let Ok(WhereClause::Contains { column, value }) = WhereClause::parse("text~a=b") else {
        panic!("not a search");
    };
    assert_eq!((column.as_str(), value.as_str()), ("text", "a=b"));

    let Ok(WhereClause::Equals { column, value }) = WhereClause::parse("text=a=b") else {
        panic!("not an equality");
    };
    assert_eq!((column.as_str(), value.as_str()), ("text", "a=b"));
}
