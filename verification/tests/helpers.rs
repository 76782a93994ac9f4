use slowcatch::backends::inspect_file::{inspect_text, inspect_text_with};
use slowcatch::integrations::post_edit_check::{
    check_syntax_parse, check_text, check_text_with, QuickCheckLanguage, Severity,
};
use slowcatch::number::{decimal_signed, decimal_text, parse_usize};
use slowcatch::paths::{extension, lowercase_extension, name_of, resolve_path, resolved_path};
use slowcatch::patterns::{in_any_case, matches_pattern, wildcard_match, wildcard_regex};
use slowcatch::shell_parse::arguments::split_argument_list;
use slowcatch::shell_parse::classify::{decide_segment, decide_single_command};
use slowcatch::shell_parse::words::tokenize;
use slowcatch::shell_parse::{classify_powershell, FastSegment, ParseDecision};
use slowcatch::sorting::{key_of_text, sort_positions};
use slowcatch::split::{join, lines, replace, split_char, split_once};
use slowcatch::syntax::{first_syntax_issue_line, parse_nodes, Grammar};
use slowcatch::text::{strip_prefix, trim};

// Texts.

#[test]
fn numbers_are_read_back() {
    for number in [0usize, 7, 10, 305, usize::MAX] {
        assert_eq!(parse_usize(&decimal_text(number as u128)), Some(number));
    }
    assert_eq!(decimal_signed(i32::MIN), "-2147483648");
    for text in ["", "+", "-1", "1x", " 1", "18446744073709551616000"] {
        assert_eq!(parse_usize(text), None, "{text}");
    }
    assert_eq!(parse_usize("+12"), Some(12));
}

#[test]
fn texts_are_taken_apart_and_put_together() {
    let parts = split_char("a,,b", ',');
    assert_eq!(parts, vec!["a", "", "b"]);
    assert_eq!(join(&parts, ","), "a,,b");
    assert_eq!(split_once("a=b=c", '='), Some(("a".to_string(), "b=c".to_string())));
    assert_eq!(split_once("abc", '='), None);
    assert_eq!(lines("a\r\nb\n\nc"), vec!["a", "b", "", "c"]);
    assert_eq!(lines(""), Vec::<String>::new());
    assert_eq!(replace("aaa", "aa", "b"), "ba");
    assert_eq!(trim("\u{3000} x \n"), "x");
    assert_eq!(strip_prefix("ab", "a").as_deref(), Some("b"));
    assert_eq!(strip_prefix("ab", "b"), None);
}

#[test]
fn sorting_is_stable_and_by_character() {
    let keys: Vec<Vec<u64>> = ["b", "a", "ab", "a"].iter().map(|text| key_of_text(text)).collect();

    assert_eq!(sort_positions(&keys, false), vec![1, 3, 2, 0]);
    assert_eq!(sort_positions(&keys, true), vec![0, 2, 1, 3]);
}

// Paths.

#[test]
fn names_are_the_last_components() {
    assert_eq!(name_of("/work/src/main.rs"), "main.rs");
    assert_eq!(name_of("main.rs"), "main.rs");
    assert_eq!(name_of("a//b/./"), "b");
    assert_eq!(name_of("a/.."), "");
    assert_eq!(name_of("."), "");
    assert_eq!(name_of("./a"), "a");
    assert_eq!(name_of("/"), "");
    assert_eq!(name_of(""), "");
}

#[test]
fn extensions_follow_the_last_dot() {
    assert_eq!(extension("a.tar.GZ").as_deref(), Some("GZ"));
    assert_eq!(lowercase_extension("a.tar.GZ").as_deref(), Some("gz"));
    assert_eq!(extension(".env"), None);
    assert_eq!(extension("a."), Some(String::new()));
}

// Patterns.

#[test]
fn patterns_are_those_of_the_regex_crate() {
    assert!(matches_pattern("^a+$", "aaa"));
    assert!(!matches_pattern("^a+$", "aab"));
    assert!(!matches_pattern("[", "["));
    assert!(matches_pattern(&in_any_case("view3d"), "View3D"));
    assert_eq!(wildcard_regex("a\\*\\.rs"), "(?i)^a.*\\.rs$");
    assert!(wildcard_match("Main.RS", "*.rs"));
    assert!(!wildcard_match("mainxrs", "*.rs"));
    assert!(wildcard_match("a(1).txt", "a(?).txt"));
}

// Syntax trees.

#[test]
fn syntax_problems_are_found_by_line() {
    let good = parse_nodes(Grammar::Rust, "fn main() {}\n").unwrap();
    assert_eq!(first_syntax_issue_line(&good), None);
    assert_eq!(good[0].kind, "source_file");
    let bad = parse_nodes(Grammar::Rust, "fn main() {}\nfn broken( {}\n").unwrap();
    assert_eq!(first_syntax_issue_line(&bad), Some(2));
    for grammar in [Grammar::Python, Grammar::C, Grammar::Cpp, Grammar::GDScript, Grammar::PowerShell]
    {
        assert!(parse_nodes(grammar, "").is_some());
    }
}

#[test]
fn inspection_follows_from_the_nodes() {
    let mut text = String::from("fn first() {}\n");
    for index in 0..1200 {
        text.push_str(&format!("// {index}\n"));
    }
    let bytes = text.len() as u64;
    let nodes = parse_nodes(Grammar::Rust, &text);

    let given = inspect_text_with("/work/a.rs", "a.rs", bytes, &text, &nodes);

    assert_eq!(given, inspect_text("/work/a.rs", "a.rs", bytes, &text));
    assert!(given.body.contains("L1 symbol | function first"));
    let without = inspect_text_with("/work/a.rs", "a.rs", bytes, &text, &None);
    assert!(!without.body.contains("L1 symbol | function first"));
}

#[test]
fn findings_follow_from_the_syntax_problem() {
    let text = "fn main() { let = 1; }\n";
    let given = check_text_with("a.rs", QuickCheckLanguage::Rust, text, Some(7));

    assert_eq!(given.len(), 1);
    assert_eq!(given[0].line, Some(7));
    assert_eq!(given[0].severity, Severity::Warning);
    assert!(check_text_with("a.rs", QuickCheckLanguage::Rust, text, None).is_empty());
    assert_eq!(check_text("a.rs", "a.rs", text)[0].line, Some(1));
    assert_eq!(check_syntax_parse("a.rs", "a.rs", text).unwrap().line, Some(1));
    assert_eq!(check_syntax_parse("a.txt", "a.txt", text), None);
}

#[test]
fn commands_follow_from_their_validity() {
    let command = "Get-ChildItem C:\\repo -Recurse -Filter *.rs";
    assert!(matches!(decide_single_command(command, None, true), ParseDecision::Fast(_)));
    assert!(!matches!(decide_single_command(command, None, false), ParseDecision::Fast(_)));
    assert!(matches!(
        decide_segment("git status --short", None, false),
        Some(FastSegment::ReadOnlyExternal(_))
    ));
    assert!(matches!(decide_segment(command, None, true), Some(FastSegment::Operation(_))));
    assert!(decide_segment(command, None, false).is_none());
}

#[test]
fn argument_lists_are_split_at_commas() {
    assert_eq!(split_argument_list("a.txt, 'b c.txt',,d"), vec!["a.txt", "b c.txt", "d"]);
}

#[test]
fn words_are_read_back_from_a_line() {
    assert_eq!(tokenize("a b  c").unwrap(), vec!["a", "b", "c"]);
    assert_eq!(tokenize("a 'b c' \"d\"").unwrap(), vec!["a", "b c", "d"]);
    assert_eq!(tokenize("  "), None);
}

// What is never taken over.

#[test]
fn unsafe_commands_are_never_fast() {
    for command in [
        "Remove-Item C:\\repo -Recurse",
        "Get-Content a.txt > b.txt",
        "Get-ChildItem -Recurse -Filter $(Get-Date)",
        "Invoke-Expression 'Get-ChildItem -Recurse -Filter *.rs'",
        "Get-ChildItem -Recurse -Filter *.rs; Remove-Item a",
        "cargo build",
        "",
    ] {
        assert!(!matches!(classify_powershell(command, None), ParseDecision::Fast(_)), "{command}");
    }
}

#[test]
fn commands_are_read_in_any_case() {
    let lower = classify_powershell("GET-CHILDITEM C:\\repo -RECURSE -FILTER *.rs", None);
    assert_eq!(lower, classify_powershell("Get-ChildItem C:\\repo -Recurse -Filter *.rs", None));
}

#[test]
fn absolute_paths_are_their_own_resolution() {
    let joined = || Some("/work/a.rs".to_string());

    assert_eq!(resolved_path("/a.rs", true, joined()).as_deref(), Some("/a.rs"));
    assert_eq!(resolved_path("/a.rs", true, None).as_deref(), Some("/a.rs"));
    assert_eq!(resolved_path("a.rs", false, joined()), joined());
    assert_eq!(resolved_path("a.rs", false, None), None);
    assert_eq!(resolve_path("a.rs", Some("/work")), joined());
    assert_eq!(resolve_path("/a.rs", Some("/work")).as_deref(), Some("/a.rs"));
    assert_eq!(resolve_path("a.rs", None), None);
}
