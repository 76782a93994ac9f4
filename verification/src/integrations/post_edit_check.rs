//! Checks of files that a patch has just changed: leftover markers, delimiters
//! out of balance, debug macros and syntax errors.
#![verifier::loop_isolation(false)]

use super::mask::{
    law_markdown_keeps_lines, law_mask_keeps_lines, mask_c_like, mask_html_xml, mask_json_like,
    mask_markdown, mask_python, masked_as, masked_markdown, plain_c, CLikeMaskOptions, Syntax,
};
use crate::bytes::{plain_text, text_in};
use crate::case::{ascii_lowercase, to_ascii_lowercase};
use crate::json::{compact, compact_json};
use crate::number::{decimal, push_decimal};
use crate::paths::{
    loose_pieces, lower_extension, lowercase_extension, name_of, names, path_parts,
    resolve_path, resolves_to, same_path, seen_alike,
};
use crate::split::{join, joined, lines, lines_of};
use crate::syntax::{first_syntax_issue_line, issue_line, parse_nodes, parsed_nodes, Grammar};
use crate::text::{
    clone_option, contains, contains_char, has_prefix, has_text, owned, push_item, same, starts_with,
    strip_prefix, to_chars, trim, trimmed,
};
use vstd::prelude::*;
use vstd::string::*;

verus! {

/// At most so many files of one patch are checked.
pub const MAX_FILES_TO_CHECK: usize = 20;

/// Larger files are not checked.
pub const MAX_FILE_BYTES: u64 = 1_000_000;

/// At most so many findings are reported.
pub const MAX_FINDINGS: usize = 20;

/// How bad a finding is.
#[derive(Debug, Clone, Copy, PartialEq, Eq, Structural)]
pub enum Severity {
    Error,
    Warning,
}

/// What kind of text a file holds, as far as the checks go.
#[derive(Debug, Clone, Copy, PartialEq, Eq, Structural)]
pub enum QuickCheckLanguage {
    Rust,
    Python,
    JavaScriptLike,
    JsxLike,
    CLike,
    Go,
    JavaLike,
    CSharp,
    GDScript,
    Json,
    Toml,
    Yaml,
    CssLike,
    HtmlXml,
    Markdown,
    ShellLike,
    Unknown,
}

/// One problem in one file.
#[derive(Debug, Clone, PartialEq, Eq)]
pub struct Finding {
    pub path: String,
    pub line: Option<u64>,
    pub severity: Severity,
    pub message: String,
}

/// The contents of a finding.
#[verifier::ext_equal]
pub ghost struct FindingView {
    pub path: Seq<char>,
    pub line: Option<u64>,
    pub severity: Severity,
    pub message: Seq<char>,
}

impl DeepView for Finding {
    type V = FindingView;

    open spec fn deep_view(&self) -> FindingView {
        FindingView {
            path: self.path@,
            line: self.line,
            severity: self.severity,
            message: self.message@,
        }
    }
}

/// The findings of one patch.
#[derive(Debug, Clone, PartialEq, Eq)]
pub struct PostEditReport {
    pub findings: Vec<Finding>,
}

impl DeepView for PostEditReport {
    type V = Seq<FindingView>;

    open spec fn deep_view(&self) -> Seq<FindingView> {
        self.findings.deep_view()
    }
}

impl Severity {
    /// The word for a severity.
    pub open spec fn word(self) -> Seq<char> {
        match self {
            Severity::Error => "error"@,
            Severity::Warning => "warning"@,
        }
    }

    /// The word for a severity.
    pub fn as_str(self) -> (r: &'static str)
        ensures
            r@ == self.word(),
    {
        match self {
            Severity::Error => "error",
            Severity::Warning => "warning",
        }
    }
}

/// Where a finding is: the path, and the line where one is known.
pub open spec fn location(finding: FindingView) -> Seq<char> {
    match finding.line {
        Some(line) => finding.path + ":L"@ + decimal(line as nat),
        None => finding.path,
    }
}

/// The line that reports a finding.
pub open spec fn finding_line(finding: FindingView) -> Seq<char> {
    finding.severity.word() + " "@ + location(finding) + " "@ + finding.message
}

/// The sentence before the findings.
pub open spec fn report_heading() -> Seq<char> {
    "Edited files were already changed on disk. Slowcatch found issues to fix before continuing:"@
}

/// The lines of a report.
pub open spec fn report_lines(findings: Seq<FindingView>) -> Seq<Seq<char>> {
    seq![report_heading()] + findings.map_values(|f: FindingView| finding_line(f))
}

impl PostEditReport {
    /// A report with the given findings.
    pub fn new(findings: Vec<Finding>) -> (r: Self)
        ensures
            r.deep_view() == findings.deep_view(),
    {
        PostEditReport { findings }
    }

    /// Whether nothing was found.
    pub fn is_empty(&self) -> (r: bool)
        ensures
            r == (self.deep_view().len() == 0),
    {
        self.findings.len() == 0
    }

    /// The report as text: a heading, and one line for each finding.
    pub fn render(&self) -> (r: String)
        ensures
            r@ == joined(report_lines(self.deep_view()), "\n"@),
    {
        let mut output: Vec<String> = Vec::new();
        push_item(
            &mut output,
            owned(
                "Edited files were already changed on disk. Slowcatch found issues to fix before continuing:",
            ),
        );
        let ghost all = self.findings.deep_view();
        let mut i: usize = 0;
        assert(output.deep_view() =~= report_lines(all.take(0)));
        while i < self.findings.len()
            invariant
                i <= self.findings.len(),
                output.deep_view() == report_lines(all.take(i as int)),
            decreases self.findings.len() - i,
        {
            let finding = &self.findings[i];
            let ghost view = all[i as int];
            assert(view == finding.deep_view());
            let mut line = owned(finding.severity.as_str());
            line.append(" ");
            line.append(finding.path.as_str());
            if let Some(number) = finding.line {
                line.append(":L");
                push_decimal(&mut line, number as u128);
            }
            line.append(" ");
            line.append(finding.message.as_str());
            assert(line@ =~= finding_line(view));
            push_item(&mut output, line);
            i += 1;
            assert(output.deep_view() =~= report_lines(all.take(i as int)));
        }
        assert(all.take(i as int) =~= all);
        join(&output, "\n")
    }
}

// Languages.

/// Whether the word is one of the words of a list of alternatives.
pub open spec fn c_family(extension: Seq<char>) -> bool {
    ||| extension == "c"@
    ||| cpp_family(extension)
}

/// The extensions that are parsed as C++.
pub open spec fn cpp_family(extension: Seq<char>) -> bool {
    ||| extension == "cc"@
    ||| extension == "cpp"@
    ||| extension == "cxx"@
    ||| extension == "h"@
    ||| extension == "hh"@
    ||| extension == "hpp"@
    ||| extension == "hxx"@
}

/// The language of a file with the given extension in lower case.
pub open spec fn language_of_extension(extension: Seq<char>) -> QuickCheckLanguage {
    if extension == "rs"@ {
        QuickCheckLanguage::Rust
    } else if extension == "py"@ {
        QuickCheckLanguage::Python
    } else if extension == "js"@ || extension == "ts"@ {
        QuickCheckLanguage::JavaScriptLike
    } else if extension == "jsx"@ || extension == "tsx"@ {
        QuickCheckLanguage::JsxLike
    } else if c_family(extension) {
        QuickCheckLanguage::CLike
    } else if extension == "go"@ {
        QuickCheckLanguage::Go
    } else if extension == "java"@ {
        QuickCheckLanguage::JavaLike
    } else if extension == "cs"@ {
        QuickCheckLanguage::CSharp
    } else if extension == "gd"@ {
        QuickCheckLanguage::GDScript
    } else if extension == "json"@ {
        QuickCheckLanguage::Json
    } else if extension == "toml"@ {
        QuickCheckLanguage::Toml
    } else if extension == "yaml"@ || extension == "yml"@ {
        QuickCheckLanguage::Yaml
    } else if extension == "css"@ || extension == "scss"@ {
        QuickCheckLanguage::CssLike
    } else if extension == "html"@ || extension == "xml"@ {
        QuickCheckLanguage::HtmlXml
    } else if extension == "md"@ || extension == "mdx"@ {
        QuickCheckLanguage::Markdown
    } else {
        QuickCheckLanguage::Unknown
    }
}

/// The names of files that are read like shell scripts.
pub open spec fn shell_like_name(lower: Seq<char>) -> bool {
    ||| has_prefix(lower, ".env"@)
    ||| lower == "dockerfile"@
    ||| lower == "makefile"@
    ||| lower == ".gitignore"@
    ||| lower == ".gitattributes"@
    ||| lower == ".editorconfig"@
}

/// The language of a file with the given name: by the whole name first,
/// then by the extension.
pub open spec fn language_of_name(name: Seq<char>) -> QuickCheckLanguage {
    if shell_like_name(ascii_lowercase(name)) {
        QuickCheckLanguage::ShellLike
    } else {
        match lower_extension(name) {
            Some(extension) => language_of_extension(extension),
            None => QuickCheckLanguage::Unknown,
        }
    }
}

fn language_for_extension(e: &str) -> (r: QuickCheckLanguage)
    ensures
        r == language_of_extension(e@),
{
    if same(e, "rs") {
        QuickCheckLanguage::Rust
    } else if same(e, "py") {
        QuickCheckLanguage::Python
    } else if same(e, "js") || same(e, "ts") {
        QuickCheckLanguage::JavaScriptLike
    } else if same(e, "jsx") || same(e, "tsx") {
        QuickCheckLanguage::JsxLike
    } else if same(e, "c") || is_cpp_family(e) {
        QuickCheckLanguage::CLike
    } else if same(e, "go") {
        QuickCheckLanguage::Go
    } else if same(e, "java") {
        QuickCheckLanguage::JavaLike
    } else if same(e, "cs") {
        QuickCheckLanguage::CSharp
    } else if same(e, "gd") {
        QuickCheckLanguage::GDScript
    } else if same(e, "json") {
        QuickCheckLanguage::Json
    } else if same(e, "toml") {
        QuickCheckLanguage::Toml
    } else if same(e, "yaml") || same(e, "yml") {
        QuickCheckLanguage::Yaml
    } else if same(e, "css") || same(e, "scss") {
        QuickCheckLanguage::CssLike
    } else if same(e, "html") || same(e, "xml") {
        QuickCheckLanguage::HtmlXml
    } else if same(e, "md") || same(e, "mdx") {
        QuickCheckLanguage::Markdown
    } else {
        QuickCheckLanguage::Unknown
    }
}

fn is_cpp_family(e: &str) -> (r: bool)
    ensures
        r == cpp_family(e@),
{
    same(e, "cc") || same(e, "cpp") || same(e, "cxx") || same(e, "h") || same(e, "hh") || same(
        e,
        "hpp",
    ) || same(e, "hxx")
}

/// The language of a file with the given name.
pub fn language_for_name(name: &str) -> (r: QuickCheckLanguage)
    ensures
        r == language_of_name(name@),
{
    let lower = to_ascii_lowercase(name);
    let l = lower.as_str();
    if starts_with(l, ".env") || same(l, "dockerfile") || same(l, "makefile") || same(
        l,
        ".gitignore",
    ) || same(l, ".gitattributes") || same(l, ".editorconfig") {
        return QuickCheckLanguage::ShellLike;
    }
    match lowercase_extension(name) {
        Some(extension) => language_for_extension(extension.as_str()),
        None => QuickCheckLanguage::Unknown,
    }
}

/// The language of the file at `path`: that of the name which the host sees
/// in it, which for a single name is the path itself.
pub fn language_for_path(path: &str) -> (r: QuickCheckLanguage)
    ensures
        exists|name: Seq<char>| #[trigger]
            language_of_name(name) == r && names(path@, name),
{
    let name = name_of(path);
    let language = language_for_name(name.as_str());
    assert(language_of_name(name@) == language && names(path@, name@));
    language
}

impl QuickCheckLanguage {
    /// Whether delimiters must balance.
    pub open spec fn balances(self) -> bool {
        ||| self is Rust
        ||| self is JavaScriptLike
        ||| self is CLike
        ||| self is Go
        ||| self is JavaLike
        ||| self is CSharp
        ||| self is GDScript
        ||| self is Json
        ||| self is CssLike
    }

    /// Whether delimiters must balance in this language.
    pub fn allows_delimiter_check(self) -> (r: bool)
        ensures
            r == self.balances(),
    {
        matches!(
            self,
            QuickCheckLanguage::Rust | QuickCheckLanguage::JavaScriptLike
                | QuickCheckLanguage::CLike | QuickCheckLanguage::Go | QuickCheckLanguage::JavaLike
                | QuickCheckLanguage::CSharp | QuickCheckLanguage::GDScript
                | QuickCheckLanguage::Json | QuickCheckLanguage::CssLike
        )
    }

    /// The grammar for a file of this language with the given name.
    pub open spec fn grammar(self, name: Seq<char>) -> Option<Grammar> {
        match self {
            QuickCheckLanguage::Rust => Some(Grammar::Rust),
            QuickCheckLanguage::Python => Some(Grammar::Python),
            QuickCheckLanguage::GDScript => Some(Grammar::GDScript),
            QuickCheckLanguage::CLike => match lower_extension(name) {
                Some(extension) => if extension == "c"@ {
                    Some(Grammar::C)
                } else if cpp_family(extension) {
                    Some(Grammar::Cpp)
                } else {
                    None
                },
                None => None,
            },
            _ => None,
        }
    }

    /// The grammar for a file of this language with the given name.
    pub fn tree_sitter_language(self, name: &str) -> (r: Option<Grammar>)
        ensures
            r == self.grammar(name@),
    {
        match self {
            QuickCheckLanguage::Rust => Some(Grammar::Rust),
            QuickCheckLanguage::Python => Some(Grammar::Python),
            QuickCheckLanguage::GDScript => Some(Grammar::GDScript),
            QuickCheckLanguage::CLike => match lowercase_extension(name) {
                Some(extension) => if same(extension.as_str(), "c") {
                    Some(Grammar::C)
                } else if is_cpp_family(extension.as_str()) {
                    Some(Grammar::Cpp)
                } else {
                    None
                },
                None => None,
            },
            _ => None,
        }
    }
}

// Masking.

/// The C-like options of a language.
pub open spec fn rust_options() -> CLikeMaskOptions {
    CLikeMaskOptions {
        single_quote_strings: false,
        rust_raw_strings: true,
        template_literals: false,
        regex_literals: false,
    }
}

/// The C-like options of JavaScript and its relatives.
pub open spec fn script_options() -> CLikeMaskOptions {
    CLikeMaskOptions {
        single_quote_strings: true,
        rust_raw_strings: false,
        template_literals: true,
        regex_literals: true,
    }
}

/// The text of a file with all that is not code blanked.
pub open spec fn masked_for(language: QuickCheckLanguage, s: Seq<char>) -> Seq<char> {
    match language {
        QuickCheckLanguage::Rust => masked_as(Syntax::CLike(rust_options()), s),
        QuickCheckLanguage::JavaScriptLike => masked_as(Syntax::CLike(script_options()), s),
        QuickCheckLanguage::JsxLike => masked_as(Syntax::CLike(script_options()), s),
        QuickCheckLanguage::CLike => masked_as(Syntax::CLike(plain_c()), s),
        QuickCheckLanguage::Go => masked_as(Syntax::CLike(plain_c()), s),
        QuickCheckLanguage::JavaLike => masked_as(Syntax::CLike(plain_c()), s),
        QuickCheckLanguage::CSharp => masked_as(Syntax::CLike(plain_c()), s),
        QuickCheckLanguage::GDScript => masked_as(Syntax::CLike(plain_c()), s),
        QuickCheckLanguage::CssLike => masked_as(Syntax::CLike(plain_c()), s),
        QuickCheckLanguage::Python => masked_as(Syntax::Python, s),
        QuickCheckLanguage::Json => masked_as(Syntax::JsonLike { hash_comments: false }, s),
        QuickCheckLanguage::Toml => masked_as(Syntax::JsonLike { hash_comments: true }, s),
        QuickCheckLanguage::Yaml => masked_as(Syntax::JsonLike { hash_comments: true }, s),
        QuickCheckLanguage::ShellLike => masked_as(Syntax::JsonLike { hash_comments: true }, s),
        QuickCheckLanguage::HtmlXml => masked_as(Syntax::HtmlXml, s),
        QuickCheckLanguage::Markdown => masked_markdown(s),
        QuickCheckLanguage::Unknown => s,
    }
}

/// Blanks all that is not code.
pub fn mask_for_language(language: QuickCheckLanguage, text: &str) -> (r: String)
    ensures
        r@ == masked_for(language, text@),
{
    match language {
        QuickCheckLanguage::Rust => mask_c_like(
            text,
            CLikeMaskOptions {
                single_quote_strings: false,
                rust_raw_strings: true,
                template_literals: false,
                regex_literals: false,
            },
        ),
        QuickCheckLanguage::JavaScriptLike | QuickCheckLanguage::JsxLike => mask_c_like(
            text,
            CLikeMaskOptions {
                single_quote_strings: true,
                rust_raw_strings: false,
                template_literals: true,
                regex_literals: true,
            },
        ),
        QuickCheckLanguage::CLike | QuickCheckLanguage::Go | QuickCheckLanguage::JavaLike
        | QuickCheckLanguage::CSharp | QuickCheckLanguage::GDScript
        | QuickCheckLanguage::CssLike => mask_c_like(text, CLikeMaskOptions::default()),
        QuickCheckLanguage::Python => mask_python(text),
        QuickCheckLanguage::Json => mask_json_like(text, false),
        QuickCheckLanguage::Toml | QuickCheckLanguage::Yaml | QuickCheckLanguage::ShellLike =>
        mask_json_like(text, true),
        QuickCheckLanguage::HtmlXml => mask_html_xml(text),
        QuickCheckLanguage::Markdown => mask_markdown(text),
        QuickCheckLanguage::Unknown => owned(text),
    }
}

/// Masking never changes the number of lines, so that a line of the masked
/// text has the number it has in the file.
pub proof fn law_masking_keeps_line_numbers(language: QuickCheckLanguage, s: Seq<char>)
    ensures
        lines_of(masked_for(language, s)).len() == lines_of(s).len(),
{
    law_mask_keeps_lines(Syntax::CLike(rust_options()), s);
    law_mask_keeps_lines(Syntax::CLike(script_options()), s);
    law_mask_keeps_lines(Syntax::CLike(plain_c()), s);
    law_mask_keeps_lines(Syntax::Python, s);
    law_mask_keeps_lines(Syntax::JsonLike { hash_comments: false }, s);
    law_mask_keeps_lines(Syntax::JsonLike { hash_comments: true }, s);
    law_mask_keeps_lines(Syntax::HtmlXml, s);
    law_markdown_keeps_lines(s);
}

// Checks by line.

/// A check that looks at one line at a time.
#[derive(Debug, Clone, Copy)]
pub enum LineRule {
    /// Conflict markers, patch markers and placeholders.
    Markers,
    /// Debug and placeholder macros of Rust.
    RustMacros,
}

impl LineRule {
    pub open spec fn severity(self) -> Severity {
        match self {
            LineRule::Markers => Severity::Error,
            LineRule::RustMacros => Severity::Warning,
        }
    }

    /// What the rule has to say of a line.
    pub open spec fn message(self, line: Seq<char>) -> Option<Seq<char>> {
        match self {
            LineRule::Markers => if has_text(line, "<<<<<<<"@) || has_text(line, "======="@)
                || has_text(line, ">>>>>>>"@) {
                Some("git conflict marker"@)
            } else if has_text(line, "*** Begin Patch"@) || has_text(line, "*** End Patch"@) {
                Some("patch marker left in file"@)
            } else if has_text(line, "TODO_REMOVE"@) || has_text(line, "FIXME_REMOVE"@) {
                Some("remove placeholder before continuing"@)
            } else {
                None
            },
            LineRule::RustMacros => if has_text(line, "dbg!("@) {
                Some("debug macro `dbg!` left in Rust file"@)
            } else if has_text(line, "todo!()"@) {
                Some("placeholder macro `todo!()` left in Rust file"@)
            } else if has_text(line, "unimplemented!()"@) {
                Some("placeholder macro `unimplemented!()` left in Rust file"@)
            } else {
                None
            },
        }
    }

    fn check(self, line: &str) -> (r: Option<&'static str>)
        ensures
            r.deep_view() == self.message(line@),
    {
        match self {
            LineRule::Markers => {
                if contains(line, "<<<<<<<") || contains(line, "=======") || contains(
                    line,
                    ">>>>>>>",
                ) {
                    Some("git conflict marker")
                } else if contains(line, "*** Begin Patch") || contains(line, "*** End Patch") {
                    Some("patch marker left in file")
                } else if contains(line, "TODO_REMOVE") || contains(line, "FIXME_REMOVE") {
                    Some("remove placeholder before continuing")
                } else {
                    None
                }
            },
            LineRule::RustMacros => {
                if contains(line, "dbg!(") {
                    Some("debug macro `dbg!` left in Rust file")
                } else if contains(line, "todo!()") {
                    Some("placeholder macro `todo!()` left in Rust file")
                } else if contains(line, "unimplemented!()") {
                    Some("placeholder macro `unimplemented!()` left in Rust file")
                } else {
                    None
                }
            },
        }
    }
}

/// The findings of a rule in the lines of a file, in order.
pub open spec fn line_findings(rule: LineRule, path: Seq<char>, lines: Seq<Seq<char>>) -> Seq<
    FindingView,
>
    decreases lines.len(),
{
    if lines.len() == 0 {
        Seq::empty()
    } else {
        let before = line_findings(rule, path, lines.drop_last());
        match rule.message(lines.last()) {
            Some(message) => before.push(
                FindingView {
                    path,
                    line: Some(lines.len() as u64),
                    severity: rule.severity(),
                    message,
                },
            ),
            None => before,
        }
    }
}

fn check_lines(rule: LineRule, path: &str, text: &str) -> (r: Vec<Finding>)
    ensures
        r.deep_view() == line_findings(rule, path@, lines_of(text@)),
{
    let all = lines(text);
    let ghost view = all.deep_view();
    let mut findings: Vec<Finding> = Vec::new();
    let mut i: usize = 0;
    assert(findings.deep_view() =~= line_findings(rule, path@, view.take(0)));
    while i < all.len()
        invariant
            i <= all.len(),
            findings.deep_view() == line_findings(rule, path@, view.take(i as int)),
        decreases all.len() - i,
    {
        proof {
            assert(view.take(i + 1).drop_last() =~= view.take(i as int));
            assert(view.take(i + 1).last() == all[i as int]@);
        }
        let message = rule.check(all[i].as_str());
        i += 1;
        if let Some(message) = message {
            let severity = match rule {
                LineRule::Markers => Severity::Error,
                LineRule::RustMacros => Severity::Warning,
            };
            push_item(
                &mut findings,
                Finding { path: owned(path), line: Some(i as u64), severity, message: owned(message) },
            );
        }
    }
    assert(view.take(all.len() as int) =~= view);
    findings
}

/// Leftover markers, line by line.
pub fn check_line_markers(path: &str, text: &str) -> (r: Vec<Finding>)
    ensures
        r.deep_view() == line_findings(LineRule::Markers, path@, lines_of(text@)),
{
    check_lines(LineRule::Markers, path, text)
}

/// Debug and placeholder macros, line by line.
pub fn check_rust_debug_macros(path: &str, text: &str) -> (r: Vec<Finding>)
    ensures
        r.deep_view() == line_findings(LineRule::RustMacros, path@, lines_of(text@)),
{
    check_lines(LineRule::RustMacros, path, text)
}

// Delimiters.

/// Whether `close` closes what `open` opened.
pub open spec fn delimiters_match(open: char, close: char) -> bool {
    (open == '{' && close == '}') || (open == '[' && close == ']') || (open == '(' && close == ')')
}

pub open spec fn opens(c: char) -> bool {
    c == '{' || c == '[' || c == '('
}

pub open spec fn closes(c: char) -> bool {
    c == '}' || c == ']' || c == ')'
}

/// The first problem with the delimiters in `s`, after `breaks` line breaks
/// and with `stack` open, each with its line: its line and message.
pub open spec fn delimiter_issue(s: Seq<char>, stack: Seq<(char, u64)>, breaks: nat) -> Option<
    (u64, Seq<char>),
>
    decreases s.len(),
{
    let line = (breaks + 1) as u64;
    if s.len() == 0 {
        if stack.len() > 0 {
            Some((stack.last().1, "unclosed delimiter `"@ + seq![stack.last().0] + "`"@))
        } else {
            None
        }
    } else if s[0] == '\n' {
        delimiter_issue(s.skip(1), stack, breaks + 1)
    } else if opens(s[0]) {
        delimiter_issue(s.skip(1), stack.push((s[0], line)), breaks)
    } else if closes(s[0]) {
        if stack.len() == 0 {
            Some((line, "unmatched closing delimiter `"@ + seq![s[0]] + "`"@))
        } else if !delimiters_match(stack.last().0, s[0]) {
            Some(
                (
                    line,
                    "mismatched delimiter `"@ + seq![stack.last().0] + "` from L"@ + decimal(
                        stack.last().1 as nat,
                    ) + " closed by `"@ + seq![s[0]] + "`"@,
                ),
            )
        } else {
            delimiter_issue(s.skip(1), stack.drop_last(), breaks)
        }
    } else {
        delimiter_issue(s.skip(1), stack, breaks)
    }
}

/// The finding on the delimiters of a text, if they are out of balance.
pub open spec fn delimiter_findings(path: Seq<char>, s: Seq<char>) -> Seq<FindingView> {
    match delimiter_issue(s, Seq::empty(), 0) {
        Some((line, message)) => seq![
            FindingView { path, line: Some(line), severity: Severity::Error, message },
        ],
        None => Seq::empty(),
    }
}

/// Whether `close` closes what `open` opened.
pub fn matches_delimiter(open: char, close: char) -> (r: bool)
    ensures
        r == delimiters_match(open, close),
{
    (open == '{' && close == '}') || (open == '[' && close == ']') || (open == '(' && close == ')')
}

fn one_finding(path: &str, line: u64, severity: Severity, message: String) -> (r: Vec<Finding>)
    ensures
        r.deep_view() == seq![
            FindingView { path: path@, line: Some(line), severity, message: message@ },
        ],
{
    let mut findings: Vec<Finding> = Vec::new();
    push_item(&mut findings, Finding { path: owned(path), line: Some(line), severity, message });
    assert(findings.deep_view() =~= seq![
        FindingView { path: path@, line: Some(line), severity, message: message@ },
    ]);
    findings
}

/// Reports the first delimiter that is unmatched, mismatched or, at the end,
/// the innermost that is unclosed.
pub fn check_balanced_delimiters(path: &str, text: &str) -> (r: Vec<Finding>)
    ensures
        r.deep_view() == delimiter_findings(path@, text@),
{
    let chars = to_chars(text);
    let mut stack: Vec<(char, u64)> = Vec::new();
    let mut breaks: usize = 0;
    let mut i: usize = 0;
    assert(chars@.skip(0) =~= chars@);
    while i < chars.len()
        invariant
            i <= chars.len(),
            breaks <= i,
            delimiter_issue(chars@.skip(i as int), stack@, breaks as nat) == delimiter_issue(
                text@,
                Seq::empty(),
                0,
            ),
        decreases chars.len() - i,
    {
        let c = chars[i];
        proof {
            assert(chars@.skip(i as int)[0] == c);
            assert(chars@.skip(i as int).skip(1) =~= chars@.skip(i + 1));
        }
        if c == '\n' {
            breaks += 1;
        } else if c == '{' || c == '[' || c == '(' {
            let line: u64 = (breaks + 1) as u64;
            stack.push((c, line));
        } else if c == '}' || c == ']' || c == ')' {
            let line: u64 = (breaks + 1) as u64;
            let ghost before = stack@;
            match stack.pop() {
                None => {
                    let mut message = owned("unmatched closing delimiter `");
                    message.push(c);
                    message.append("`");
                    assert(message@ =~= "unmatched closing delimiter `"@ + seq![c] + "`"@);
                    return one_finding(path, line, Severity::Error, message);
                },
                Some((open, open_line)) => {
                    if !matches_delimiter(open, c) {
                        let mut message = owned("mismatched delimiter `");
                        message.push(open);
                        message.append("` from L");
                        push_decimal(&mut message, open_line as u128);
                        message.append(" closed by `");
                        message.push(c);
                        message.append("`");
                        assert(message@ =~= "mismatched delimiter `"@ + seq![open] + "` from L"@
                            + decimal(open_line as nat) + " closed by `"@ + seq![c] + "`"@);
                        return one_finding(path, line, Severity::Error, message);
                    }
                    assert(stack@ =~= before.drop_last());
                },
            }
        }
        i += 1;
    }
    assert(chars@.skip(i as int) =~= Seq::<char>::empty());
    match stack.pop() {
        Some((open, open_line)) => {
            let mut message = owned("unclosed delimiter `");
            message.push(open);
            message.append("`");
            assert(message@ =~= "unclosed delimiter `"@ + seq![open] + "`"@);
            one_finding(path, open_line, Severity::Error, message)
        },
        None => {
            let none: Vec<Finding> = Vec::new();
            assert(none.deep_view() =~= Seq::<FindingView>::empty());
            none
        },
    }
}

// One file.

/// Whether a finding reports delimiters out of balance.
pub open spec fn reports_delimiter(finding: FindingView) -> bool {
    finding.severity is Error && has_text(finding.message, "delimiter"@)
}

/// Whether some finding reports delimiters out of balance.
pub open spec fn any_delimiter_error(findings: Seq<FindingView>) -> bool {
    exists|i: int| 0 <= i < findings.len() && reports_delimiter(#[trigger] findings[i])
}

/// Whether some finding reports delimiters out of balance.
pub fn has_delimiter_error(findings: &Vec<Finding>) -> (r: bool)
    ensures
        r == any_delimiter_error(findings.deep_view()),
{
    let ghost view = findings.deep_view();
    let mut i: usize = 0;
    while i < findings.len()
        invariant
            i <= findings.len(),
            forall|j: int| 0 <= j < i ==> !reports_delimiter(#[trigger] view[j]),
        decreases findings.len() - i,
    {
        assert(view[i as int] == findings[i as int].deep_view());
        if findings[i].severity == Severity::Error && contains(
            findings[i].message.as_str(),
            "delimiter",
        ) {
            assert(reports_delimiter(view[i as int]));
            return true;
        }
        i += 1;
    }
    false
}

/// The findings of the scans of a text with all that is not code blanked.
pub open spec fn scan_findings(path: Seq<char>, language: QuickCheckLanguage, text: Seq<char>) -> Seq<
    FindingView,
> {
    let scan = masked_for(language, text);
    let markers = line_findings(LineRule::Markers, path, lines_of(scan));
    let delimiters = if language.balances() {
        delimiter_findings(path, scan)
    } else {
        Seq::empty()
    };
    let macros = if language is Rust {
        line_findings(LineRule::RustMacros, path, lines_of(scan))
    } else {
        Seq::empty()
    };
    markers + delimiters + macros
}

/// The finding for the line where a parser met its first problem.
pub open spec fn syntax_findings(path: Seq<char>, line: Option<u64>) -> Seq<FindingView> {
    match line {
        Some(line) => seq![
            FindingView {
                path,
                line: Some(line),
                severity: Severity::Warning,
                message: "syntax parse issue detected"@,
            },
        ],
        None => Seq::empty(),
    }
}

/// The findings in a text whose first syntax problem is on `line`. Where the
/// delimiters are out of balance the syntax problem goes unreported.
pub open spec fn text_findings(
    path: Seq<char>,
    language: QuickCheckLanguage,
    text: Seq<char>,
    line: Option<u64>,
) -> Seq<FindingView> {
    let scan = scan_findings(path, language, text);
    if any_delimiter_error(scan) {
        scan
    } else {
        scan + syntax_findings(path, line)
    }
}

/// Where the parser for the grammar meets its first problem in a text.
pub open spec fn syntax_issue(grammar: Option<Grammar>, text: Seq<char>) -> Option<u64> {
    match grammar {
        Some(grammar) => match parsed_nodes(grammar, text) {
            Some(nodes) => issue_line(nodes, 0),
            None => None,
        },
        None => None,
    }
}

fn append_findings(findings: &mut Vec<Finding>, more: Vec<Finding>)
    ensures
        final(findings).deep_view() == old(findings).deep_view() + more.deep_view(),
{
    let ghost a = findings.deep_view();
    let mut more = more;
    let ghost b = more.deep_view();
    findings.append(&mut more);
    assert(findings.deep_view() =~= a + b);
}

fn scan_text(path: &str, language: QuickCheckLanguage, text: &str) -> (r: Vec<Finding>)
    ensures
        r.deep_view() == scan_findings(path@, language, text@),
{
    let scan = mask_for_language(language, text);
    let mut findings = check_line_markers(path, scan.as_str());
    let ghost markers = findings.deep_view();
    if language.allows_delimiter_check() {
        append_findings(&mut findings, check_balanced_delimiters(path, scan.as_str()));
    }
    let ghost both = findings.deep_view();
    if matches!(language, QuickCheckLanguage::Rust) {
        append_findings(&mut findings, check_rust_debug_macros(path, scan.as_str()));
    }
    assert(findings.deep_view() =~= scan_findings(path@, language, text@));
    findings
}

fn push_syntax(path: &str, findings: &mut Vec<Finding>, line: Option<u64>)
    ensures
        final(findings).deep_view() == old(findings).deep_view() + syntax_findings(path@, line),
{
    let ghost before = findings.deep_view();
    if let Some(line) = line {
        push_item(
            findings,
            Finding {
                path: owned(path),
                line: Some(line),
                severity: Severity::Warning,
                message: owned("syntax parse issue detected"),
            },
        );
    }
    assert(findings.deep_view() =~= before + syntax_findings(path@, line));
}

/// The findings in a text, given the line of its first syntax problem.
pub fn check_text_with(
    path: &str,
    language: QuickCheckLanguage,
    text: &str,
    line: Option<u64>,
) -> (r: Vec<Finding>)
    ensures
        r.deep_view() == text_findings(path@, language, text@, line),
{
    let mut findings = scan_text(path, language, text);
    if !has_delimiter_error(&findings) {
        push_syntax(path, &mut findings, line);
    }
    findings
}

/// Where the parser for a language and a file name meets its first problem.
pub fn syntax_issue_line(language: QuickCheckLanguage, name: &str, text: &str) -> (r: Option<u64>)
    ensures
        r == syntax_issue(language.grammar(name@), text@),
{
    match language.tree_sitter_language(name) {
        Some(grammar) => match parse_nodes(grammar, text) {
            Some(nodes) => first_syntax_issue_line(&nodes),
            None => None,
        },
        None => None,
    }
}

/// The syntax finding for a text in a file with the given name.
pub fn check_syntax_parse(path: &str, name: &str, text: &str) -> (r: Option<Finding>)
    ensures
        match r {
            Some(finding) => syntax_findings(
                path@,
                syntax_issue(language_of_name(name@).grammar(name@), text@),
            ) == seq![finding.deep_view()],
            None => syntax_issue(language_of_name(name@).grammar(name@), text@) is None,
        },
{
    let language = language_for_name(name);
    match syntax_issue_line(language, name, text) {
        Some(line) => Some(
            Finding {
                path: owned(path),
                line: Some(line),
                severity: Severity::Warning,
                message: owned("syntax parse issue detected"),
            },
        ),
        None => None,
    }
}

/// The findings in the text of a file with the given name.
pub open spec fn named_findings(path: Seq<char>, name: Seq<char>, text: Seq<char>) -> Seq<
    FindingView,
> {
    let language = language_of_name(name);
    text_findings(path, language, text, syntax_issue(language.grammar(name), text))
}

/// The findings in the text of a file with the given name. The text is parsed
/// only where its delimiters balance.
pub fn check_text(path: &str, name: &str, text: &str) -> (r: Vec<Finding>)
    ensures
        r.deep_view() == named_findings(path@, name@, text@),
{
    let language = language_for_name(name);
    let mut findings = scan_text(path, language, text);
    if !has_delimiter_error(&findings) {
        let ghost before = findings.deep_view();
        if let Some(finding) = check_syntax_parse(path, name, text) {
            let ghost more = finding.deep_view();
            push_item(&mut findings, finding);
            assert(findings.deep_view() =~= before + seq![more]);
        }
        assert(before + Seq::<FindingView>::empty() =~= before);
    }
    findings
}

/// Whether a file is worth reading: a plain file of a known language that is
/// not too large.
pub open spec fn checkable(language: QuickCheckLanguage, is_file: bool, len: u64) -> bool {
    is_file && len <= MAX_FILE_BYTES && !(language is Unknown)
}

/// Whether the file at `path` is worth reading, given what its metadata say.
pub fn should_check_file(path: &str, is_file: bool, len: u64) -> (r: bool)
    ensures
        exists|name: Seq<char>|
            r == #[trigger] checkable(language_of_name(name), is_file, len) && names(path@, name),
{
    let name = name_of(path);
    let language = language_for_name(name.as_str());
    assert(checkable(language_of_name(name@), is_file, len) == (is_file && len <= MAX_FILE_BYTES
        && !(language is Unknown)));
    is_file && len <= MAX_FILE_BYTES && !matches!(language, QuickCheckLanguage::Unknown)
}

/// The findings in a file with the given name and contents; none in a file
/// that is not worth reading or is not text.
pub open spec fn file_findings(
    path: Seq<char>,
    name: Seq<char>,
    is_file: bool,
    len: u64,
    bytes: Seq<u8>,
) -> Seq<FindingView> {
    if !checkable(language_of_name(name), is_file, len) {
        Seq::empty()
    } else {
        match plain_text(bytes) {
            Some(text) => named_findings(path, name, text),
            None => Seq::empty(),
        }
    }
}

/// The findings in a file with the given name, metadata and contents.
pub fn check_named_file(path: &str, name: &str, is_file: bool, len: u64, bytes: Vec<u8>) -> (r: Vec<
    Finding,
>)
    ensures
        r.deep_view() == file_findings(path@, name@, is_file, len, bytes@),
{
    let none: Vec<Finding> = Vec::new();
    assert(none.deep_view() =~= Seq::<FindingView>::empty());
    let language = language_for_name(name);
    if !is_file || len > MAX_FILE_BYTES || matches!(language, QuickCheckLanguage::Unknown) {
        return none;
    }
    match text_in(bytes) {
        Some(text) => check_text(path, name, text.as_str()),
        None => none,
    }
}

/// The findings in the file at `path` with the given metadata and contents.
/// Its name is what the host sees in the path.
pub fn check_file(path: &str, is_file: bool, len: u64, bytes: Vec<u8>) -> (r: Vec<Finding>)
    ensures
        exists|name: Seq<char>|
            r.deep_view() == #[trigger] file_findings(path@, name, is_file, len, bytes@) && names(
                path@,
                name,
            ),
{
    let name = name_of(path);
    check_named_file(path, name.as_str(), is_file, len, bytes)
}

/// A file that is missing, no plain file, too large, of no known language,
/// binary or not UTF-8 has no findings.
pub proof fn law_unreadable_files_are_clean(
    path: Seq<char>,
    name: Seq<char>,
    is_file: bool,
    len: u64,
    bytes: Seq<u8>,
)
    requires
        !is_file || len > MAX_FILE_BYTES || language_of_name(name) == QuickCheckLanguage::Unknown
            || bytes.contains(0u8) || !vstd::utf8::valid_utf8(bytes),
    ensures
        file_findings(path, name, is_file, len, bytes).len() == 0,
{
}

// One patch.

/// All findings of the files of a patch, in order. A file that could not be
/// read has none.
pub open spec fn all_findings(files: Seq<Seq<FindingView>>) -> Seq<FindingView>
    decreases files.len(),
{
    if files.len() == 0 {
        Seq::empty()
    } else {
        all_findings(files.drop_last()) + files.last()
    }
}

/// The findings that are reported: the first so many of them.
pub open spec fn reported(files: Seq<Seq<FindingView>>) -> Seq<FindingView> {
    let all = all_findings(files);
    if all.len() > MAX_FINDINGS {
        all.take(MAX_FINDINGS as int)
    } else {
        all
    }
}

/// The report on the files of a patch, if there is anything to report.
pub fn check_apply_patch_command(files: Vec<Vec<Finding>>) -> (r: Option<PostEditReport>)
    ensures
        r.deep_view() == if reported(files.deep_view()).len() > 0 {
            Some(reported(files.deep_view()))
        } else {
            None
        },
{
    let ghost view = files.deep_view();
    let mut findings: Vec<Finding> = Vec::new();
    let mut files = files;
    let mut rest: Vec<Vec<Finding>> = Vec::new();
    let count: usize = files.len();
    // The files come off the end of the list, so turn it round first.
    while files.len() > 0
        invariant
            files@.len() + rest@.len() == count,
            files.deep_view() == view.take(files@.len() as int),
            forall|j: int|
                0 <= j < rest@.len() ==> #[trigger] rest@[j].deep_view() == view[count - 1 - j],
        decreases files.len(),
    {
        let ghost n = files@.len();
        let ghost before = files@;
        let ghost files_view = files.deep_view();
        match files.pop() {
            Some(last) => {
                proof {
                    assert(files_view[n - 1] == before[n - 1].deep_view());
                    assert(last.deep_view() == view[n - 1]);
                    assert(files.deep_view() =~= view.take(n - 1)) by {
                        assert forall|j: int| 0 <= j < n - 1 implies files.deep_view()[j] == view[j] by {
                            assert(files_view[j] == before[j].deep_view());
                        }
                    }
                }
                rest.push(last);
            },
            None => {},
        }
    }
    assert(findings.deep_view() =~= all_findings(view.take(0)));
    let mut k: usize = 0;
    while rest.len() > 0
        invariant
            rest@.len() + k == count,
            count == view.len(),
            findings.deep_view() == all_findings(view.take(k as int)),
            forall|j: int|
                0 <= j < rest@.len() ==> #[trigger] rest@[j].deep_view() == view[count - 1 - j],
        decreases rest.len(),
    {
        let ghost last_view = rest@[rest@.len() - 1].deep_view();
        match rest.pop() {
            Some(more) => {
                proof {
                    assert(view.take(k + 1).drop_last() =~= view.take(k as int));
                    assert(view.take(k + 1).last() == more.deep_view());
                }
                append_findings(&mut findings, more);
            },
            None => {},
        }
        k += 1;
    }
    assert(view.take(k as int) =~= view);
    let ghost all = findings.deep_view();
    if findings.len() > MAX_FINDINGS {
        let ghost items = findings@;
        findings.truncate(MAX_FINDINGS);
        assert(findings.deep_view() =~= all.take(MAX_FINDINGS as int));
    }
    let report = PostEditReport::new(findings);
    if report.is_empty() {
        None
    } else {
        Some(report)
    }
}

/// Once as many findings are there as are reported, further files do not
/// change the report.
pub proof fn law_full_report_is_final(
    files: Seq<Seq<FindingView>>,
    more: Seq<Seq<FindingView>>,
)
    requires
        all_findings(files).len() >= MAX_FINDINGS,
    ensures
        reported(files + more) == reported(files),
{
    lemma_findings_grow(files, more);
    let short = all_findings(files);
    let long = all_findings(files + more);
    assert(long.take(MAX_FINDINGS as int) =~= short.take(MAX_FINDINGS as int)) by {
        assert forall|j: int| 0 <= j < MAX_FINDINGS implies long[j] == short[j] by {
            assert(long.take(short.len() as int)[j] == short[j]);
        }
    }
    assert(short.len() == MAX_FINDINGS ==> short.take(MAX_FINDINGS as int) =~= short);
    assert(long.len() == MAX_FINDINGS ==> long.take(MAX_FINDINGS as int) =~= long);
}

proof fn lemma_findings_grow(files: Seq<Seq<FindingView>>, more: Seq<Seq<FindingView>>)
    ensures
        all_findings(files + more).len() >= all_findings(files).len(),
        all_findings(files + more).take(all_findings(files).len() as int) == all_findings(files),
    decreases more.len(),
{
    let short = all_findings(files);
    if more.len() == 0 {
        assert(files + more =~= files);
        assert(short.take(short.len() as int) =~= short);
    } else {
        lemma_findings_grow(files, more.drop_last());
        assert((files + more).drop_last() =~= files + more.drop_last());
        let middle = all_findings(files + more.drop_last());
        let long = all_findings(files + more);
        assert(long.take(short.len() as int) =~= short) by {
            assert forall|j: int| 0 <= j < short.len() implies long[j] == short[j] by {
                assert(middle.take(short.len() as int)[j] == short[j]);
            }
        }
    }
}

/// No report has more findings than the limit.
pub proof fn law_report_is_bounded(files: Seq<Seq<FindingView>>)
    ensures
        reported(files).len() <= MAX_FINDINGS,
{
}

// The paths that a patch touches.

/// A file that a line of a patch names.
#[derive(Debug, Clone, PartialEq, Eq)]
pub struct PatchEntry {
    /// Whether the patch deletes the file.
    pub deleted: bool,
    /// The path as the patch gives it, without surrounding white space.
    pub path: String,
}

/// The contents of a patch entry.
#[verifier::ext_equal]
pub ghost struct PatchEntryView {
    pub deleted: bool,
    pub path: Seq<char>,
}

impl DeepView for PatchEntry {
    type V = PatchEntryView;

    open spec fn deep_view(&self) -> PatchEntryView {
        PatchEntryView { deleted: self.deleted, path: self.path@ }
    }
}

/// A patch entry with the path resolved, where it could be.
#[derive(Debug, Clone, PartialEq, Eq)]
pub struct PatchTarget {
    pub deleted: bool,
    pub path: Option<String>,
    /// Two targets name the same file exactly where they have the same class.
    pub class: usize,
}

/// The contents of a patch target.
#[verifier::ext_equal]
pub ghost struct PatchTargetView {
    pub deleted: bool,
    pub path: Option<Seq<char>>,
    pub class: usize,
}

impl DeepView for PatchTarget {
    type V = PatchTargetView;

    open spec fn deep_view(&self) -> PatchTargetView {
        PatchTargetView { deleted: self.deleted, path: self.path.deep_view(), class: self.class }
    }
}

/// A usable path in a patch: trimmed, not empty and without zero characters.
pub open spec fn patch_path(path: Seq<char>) -> Option<Seq<char>> {
    let path = trimmed(path);
    if path.len() == 0 || path.contains('\0') {
        None
    } else {
        Some(path)
    }
}

/// The path that follows the keyword on a line of a patch, if it has one,
/// and whether the keyword deletes.
pub open spec fn named_path(line: Seq<char>) -> Option<(bool, Seq<char>)> {
    if has_prefix(line, "*** Delete File: "@) {
        Some((true, line.skip("*** Delete File: "@.len() as int)))
    } else if has_prefix(line, "*** Add File: "@) {
        Some((false, line.skip("*** Add File: "@.len() as int)))
    } else if has_prefix(line, "*** Update File: "@) {
        Some((false, line.skip("*** Update File: "@.len() as int)))
    } else if has_prefix(line, "*** Move to: "@) {
        Some((false, line.skip("*** Move to: "@.len() as int)))
    } else {
        None
    }
}

/// The entry on a line of a patch.
pub open spec fn line_entry(line: Seq<char>) -> Option<PatchEntryView> {
    match named_path(line) {
        Some((deleted, path)) => match patch_path(path) {
            Some(path) => Some(PatchEntryView { deleted, path }),
            None => None,
        },
        None => None,
    }
}

/// The entries of a patch, line by line.
pub open spec fn entries_of(lines: Seq<Seq<char>>) -> Seq<PatchEntryView>
    decreases lines.len(),
{
    if lines.len() == 0 {
        Seq::empty()
    } else {
        let before = entries_of(lines.drop_last());
        match line_entry(lines.last()) {
            Some(entry) => before.push(entry),
            None => before,
        }
    }
}

fn named_path_on(line: &str) -> (r: Option<(bool, String)>)
    ensures
        r.deep_view() == named_path(line@),
{
    if let Some(path) = strip_prefix(line, "*** Delete File: ") {
        return Some((true, path));
    }
    if let Some(path) = strip_prefix(line, "*** Add File: ") {
        return Some((false, path));
    }
    if let Some(path) = strip_prefix(line, "*** Update File: ") {
        return Some((false, path));
    }
    if let Some(path) = strip_prefix(line, "*** Move to: ") {
        return Some((false, path));
    }
    None
}

fn clean_patch_path(path: &str) -> (r: Option<String>)
    ensures
        r.deep_view() == patch_path(path@),
{
    let path = trim(path);
    if path.as_str().unicode_len() == 0 || contains_char(path.as_str(), '\0') {
        None
    } else {
        Some(path)
    }
}

/// The files that a patch names, line by line.
pub fn patch_entries(command: &str) -> (r: Vec<PatchEntry>)
    ensures
        r.deep_view() == entries_of(lines_of(command@)),
{
    let all = lines(command);
    let ghost view = all.deep_view();
    let mut entries: Vec<PatchEntry> = Vec::new();
    let mut i: usize = 0;
    assert(entries.deep_view() =~= entries_of(view.take(0)));
    while i < all.len()
        invariant
            i <= all.len(),
            entries.deep_view() == entries_of(view.take(i as int)),
        decreases all.len() - i,
    {
        proof {
            assert(view.take(i + 1).drop_last() =~= view.take(i as int));
            assert(view.take(i + 1).last() == all[i as int]@);
        }
        if let Some((deleted, path)) = named_path_on(all[i].as_str()) {
            if let Some(path) = clean_patch_path(path.as_str()) {
                push_item(&mut entries, PatchEntry { deleted, path });
            }
        }
        i += 1;
    }
    assert(view.take(all.len() as int) =~= view);
    entries
}

/// Whether the target is the first that touches its file without deleting it.
pub open spec fn first_touch(targets: Seq<PatchTargetView>, i: int) -> bool {
    &&& !targets[i].deleted
    &&& targets[i].path is Some
    &&& forall|j: int|
        0 <= j < i && !(#[trigger] targets[j]).deleted && targets[j].path is Some
            ==> targets[j].class != targets[i].class
}

/// Whether some target deletes the file of the class.
pub open spec fn class_deleted(targets: Seq<PatchTargetView>, class: usize) -> bool {
    exists|j: int|
        0 <= j < targets.len() && (#[trigger] targets[j]).deleted && targets[j].path is Some
            && targets[j].class == class
}

/// Whether the file of the target is left by the patch, and the target is
/// the first to touch it.
pub open spec fn left_by(targets: Seq<PatchTargetView>, i: int) -> bool {
    first_touch(targets, i) && !class_deleted(targets, targets[i].class)
}

/// The files among the first `n` targets that the patch leaves, each once.
pub open spec fn left_paths(targets: Seq<PatchTargetView>, n: nat) -> Seq<Seq<char>>
    decreases n,
{
    if n == 0 {
        Seq::empty()
    } else {
        let before = left_paths(targets, (n - 1) as nat);
        if n <= targets.len() && left_by(targets, n - 1) {
            before.push(targets[n - 1].path->0)
        } else {
            before
        }
    }
}

/// The files to check: the first so many that the patch leaves, if any.
pub open spec fn touched(targets: Seq<PatchTargetView>) -> Option<Seq<Seq<char>>> {
    let all = left_paths(targets, targets.len());
    if all.len() == 0 {
        None
    } else if all.len() > MAX_FILES_TO_CHECK {
        Some(all.take(MAX_FILES_TO_CHECK as int))
    } else {
        Some(all)
    }
}

fn is_first_touch(targets: &Vec<PatchTarget>, i: usize) -> (r: bool)
    requires
        i < targets.len(),
    ensures
        r == first_touch(targets.deep_view(), i as int),
{
    let ghost view = targets.deep_view();
    assert(view[i as int] == targets[i as int].deep_view());
    if targets[i].deleted || targets[i].path.is_none() {
        return false;
    }
    let mut j: usize = 0;
    while j < i
        invariant
            j <= i,
            forall|k: int|
                0 <= k < j && !(#[trigger] view[k]).deleted && view[k].path is Some
                    ==> view[k].class != view[i as int].class,
        decreases i - j,
    {
        assert(view[j as int] == targets[j as int].deep_view());
        if !targets[j].deleted && targets[j].path.is_some() && targets[j].class
            == targets[i].class {
            return false;
        }
        j += 1;
    }
    true
}

fn is_class_deleted(targets: &Vec<PatchTarget>, class: usize) -> (r: bool)
    ensures
        r == class_deleted(targets.deep_view(), class),
{
    let ghost view = targets.deep_view();
    let mut j: usize = 0;
    while j < targets.len()
        invariant
            j <= targets.len(),
            forall|k: int|
                0 <= k < j && (#[trigger] view[k]).deleted && view[k].path is Some ==> view[k].class
                    != class,
        decreases targets.len() - j,
    {
        assert(view[j as int] == targets[j as int].deep_view());
        if targets[j].deleted && targets[j].path.is_some() && targets[j].class == class {
            return true;
        }
        j += 1;
    }
    false
}

/// The files to check among the targets of a patch.
pub fn select_touched(targets: &Vec<PatchTarget>) -> (r: Option<Vec<String>>)
    ensures
        r.deep_view() == touched(targets.deep_view()),
{
    let ghost view = targets.deep_view();
    let mut paths: Vec<String> = Vec::new();
    let mut i: usize = 0;
    assert(paths.deep_view() =~= left_paths(view, 0));
    while i < targets.len()
        invariant
            i <= targets.len(),
            paths.deep_view() == left_paths(view, i as nat),
        decreases targets.len() - i,
    {
        assert(view[i as int] == targets[i as int].deep_view());
        if is_first_touch(targets, i) && !is_class_deleted(targets, targets[i].class) {
            if let Some(path) = &targets[i].path {
                push_item(&mut paths, path.clone());
            }
        }
        i += 1;
    }
    if paths.len() == 0 {
        return None;
    }
    if paths.len() > MAX_FILES_TO_CHECK {
        let ghost all = paths.deep_view();
        paths.truncate(MAX_FILES_TO_CHECK);
        assert(paths.deep_view() =~= all.take(MAX_FILES_TO_CHECK as int));
    }
    Some(paths)
}

/// Whether the targets are the entries with their paths resolved, and the
/// targets of the same file have the same class.
pub open spec fn targets_of(
    entries: Seq<PatchEntryView>,
    cwd: Option<Seq<char>>,
    targets: Seq<PatchTargetView>,
) -> bool {
    &&& targets.len() == entries.len()
    &&& forall|i: int|
        0 <= i < entries.len() ==> (#[trigger] targets[i]).deleted == entries[i].deleted
            && resolves_to(entries[i].path, cwd, targets[i].path)
    &&& resolved_alike(entries, targets)
    &&& same_paths_share(targets)
    &&& classes_by_pieces(targets)
    &&& all_seen_alike(targets) ==> classes_by_parts(targets)
}

/// Whether entries with the same path have targets with the same path.
pub open spec fn resolved_alike(
    entries: Seq<PatchEntryView>,
    targets: Seq<PatchTargetView>,
) -> bool {
    forall|i: int, j: int|
        0 <= i < targets.len() && 0 <= j < targets.len() && entries[i].path == entries[j].path ==> (
        #[trigger] targets[i]).path == (#[trigger] targets[j]).path
}

/// Whether targets have the same class only where their paths have the same
/// pieces up to the case of a drive.
pub open spec fn classes_by_pieces(targets: Seq<PatchTargetView>) -> bool {
    forall|i: int, j: int|
        0 <= i < targets.len() && 0 <= j < targets.len() && (#[trigger] targets[i]).path is Some
            && (#[trigger] targets[j]).path is Some && targets[i].class == targets[j].class
            ==> loose_pieces(targets[i].path->0) == loose_pieces(targets[j].path->0)
}

/// Whether all hosts agree on which of the paths are the same.
pub open spec fn all_seen_alike(targets: Seq<PatchTargetView>) -> bool {
    forall|i: int, j: int|
        0 <= i < targets.len() && 0 <= j < targets.len() && (#[trigger] targets[i]).path is Some
            && (#[trigger] targets[j]).path is Some ==> seen_alike(
            targets[i].path->0,
            targets[j].path->0,
        )
}

/// Whether all hosts agree on which of the paths are the same as another one.
pub open spec fn seen_alike_to(targets: Seq<PatchTargetView>, path: Seq<char>) -> bool {
    forall|i: int|
        0 <= i < targets.len() && (#[trigger] targets[i]).path is Some ==> seen_alike(
            targets[i].path->0,
            path,
        )
}

/// Whether targets have the same class exactly where their paths have the
/// same components.
pub open spec fn classes_by_parts(targets: Seq<PatchTargetView>) -> bool {
    forall|i: int, j: int|
        0 <= i < targets.len() && 0 <= j < targets.len() && (#[trigger] targets[i]).path is Some
            && (#[trigger] targets[j]).path is Some ==> (targets[i].class == targets[j].class
            <==> path_parts(targets[i].path->0) == path_parts(targets[j].path->0))
}

/// Whether targets with the same path have the same class.
pub open spec fn same_paths_share(targets: Seq<PatchTargetView>) -> bool {
    forall|i: int, j: int|
        0 <= i < targets.len() && 0 <= j < targets.len() && (#[trigger] targets[i]).path is Some
            && (#[trigger] targets[j]).path == targets[i].path ==> targets[i].class
            == targets[j].class
}

/// Whether every class is the position of an earlier target, or its own.
spec fn classes_are_old(targets: Seq<PatchTargetView>) -> bool {
    forall|i: int| 0 <= i < targets.len() ==> (#[trigger] targets[i]).class <= i
}

fn class_among(targets: &Vec<PatchTarget>, path: &str) -> (r: usize)
    requires
        same_paths_share(targets.deep_view()),
        classes_are_old(targets.deep_view()),
        classes_by_pieces(targets.deep_view()),
        all_seen_alike(targets.deep_view()) ==> classes_by_parts(targets.deep_view()),
    ensures
        r <= targets.len(),
        forall|j: int|
            0 <= j < targets.len() && (#[trigger] targets.deep_view()[j]).path is Some
                && targets.deep_view()[j].class == r ==> loose_pieces(
                targets.deep_view()[j].path->0,
            ) == loose_pieces(path@),
        forall|j: int|
            0 <= j < targets.len() && (#[trigger] targets.deep_view()[j]).path == Some(path@)
                ==> targets.deep_view()[j].class == r,
        all_seen_alike(targets.deep_view()) && seen_alike_to(targets.deep_view(), path@) ==> forall|j: int|
            0 <= j < targets.len() && (#[trigger] targets.deep_view()[j]).path is Some ==> (
            targets.deep_view()[j].class == r <==> path_parts(targets.deep_view()[j].path->0)
                == path_parts(path@)),
{
    let ghost view = targets.deep_view();
    let mut j: usize = 0;
    while j < targets.len()
        invariant
            j <= targets.len(),
            forall|k: int| 0 <= k < j ==> (#[trigger] view[k]).path != Some(path@),
        decreases targets.len() - j,
    {
        assert(view[j as int] == targets[j as int].deep_view());
        if let Some(other) = &targets[j].path {
            if same(other.as_str(), path) {
                return targets[j].class;
            }
        }
        j += 1;
    }
    let mut j: usize = 0;
    while j < targets.len()
        invariant
            j <= targets.len(),
            all_seen_alike(view) && seen_alike_to(view, path@) ==> forall|k: int|
                0 <= k < j && (#[trigger] view[k]).path is Some ==> path_parts(view[k].path->0)
                    != path_parts(path@),
        decreases targets.len() - j,
    {
        assert(view[j as int] == targets[j as int].deep_view());
        if let Some(other) = &targets[j].path {
            assert(view[j as int].path == Some(other@));
            if same_path(other.as_str(), path) {
                return targets[j].class;
            }
        }
        j += 1;
    }
    targets.len()
}

/// Resolves the entry at `i` of a patch against the working directory, in the
/// same way as an earlier entry with the same path.
fn resolve_entry(
    entries: &Vec<PatchEntry>,
    targets: &Vec<PatchTarget>,
    i: usize,
    cwd: Option<&str>,
) -> (r: Option<String>)
    requires
        i < entries.len(),
        targets.len() == i,
        forall|k: int|
            0 <= k < i ==> resolves_to(
                entries.deep_view()[k].path,
                cwd.deep_view(),
                (#[trigger] targets.deep_view()[k]).path,
            ),
        resolved_alike(entries.deep_view(), targets.deep_view()),
    ensures
        resolves_to(entries.deep_view()[i as int].path, cwd.deep_view(), r.deep_view()),
        forall|k: int|
            0 <= k < i && entries.deep_view()[k].path == entries.deep_view()[i as int].path ==> (
            #[trigger] targets.deep_view()[k]).path == r.deep_view(),
{
    let ghost view = entries.deep_view();
    assert(view[i as int] == entries[i as int].deep_view());
    let mut k: usize = 0;
    while k < i
        invariant
            k <= i,
            forall|j: int| 0 <= j < k ==> (#[trigger] view[j]).path != view[i as int].path,
        decreases i - k,
    {
        assert(view[k as int] == entries[k as int].deep_view());
        assert(targets.deep_view()[k as int] == targets[k as int].deep_view());
        if same(entries[k].path.as_str(), entries[i].path.as_str()) {
            return clone_option(&targets[k].path);
        }
        k += 1;
    }
    resolve_path(entries[i].path.as_str(), cwd)
}

/// Resolves the entries of a patch. Targets get the same class where the
/// host takes their paths for the same.
pub fn resolve_entries(entries: &Vec<PatchEntry>, cwd: Option<&str>) -> (r: Vec<PatchTarget>)
    ensures
        targets_of(entries.deep_view(), cwd.deep_view(), r.deep_view()),
{
    let ghost view = entries.deep_view();
    let mut targets: Vec<PatchTarget> = Vec::new();
    let mut i: usize = 0;
    while i < entries.len()
        invariant
            i <= entries.len(),
            targets.len() == i,
            forall|k: int|
                0 <= k < i ==> (#[trigger] targets.deep_view()[k]).deleted == view[k].deleted
                    && resolves_to(view[k].path, cwd.deep_view(), targets.deep_view()[k].path),
            resolved_alike(view, targets.deep_view()),
            same_paths_share(targets.deep_view()),
            classes_are_old(targets.deep_view()),
            classes_by_pieces(targets.deep_view()),
            all_seen_alike(targets.deep_view()) ==> classes_by_parts(targets.deep_view()),
        decreases entries.len() - i,
    {
        assert(view[i as int] == entries[i as int].deep_view());
        let path = resolve_entry(entries, &targets, i, cwd);
        let class = match &path {
            Some(path) => class_among(&targets, path.as_str()),
            None => 0,
        };
        let ghost before = targets.deep_view();
        let ghost text = path.deep_view();
        push_item(&mut targets, PatchTarget { deleted: entries[i].deleted, path, class });
        proof {
            let after = targets.deep_view();
            assert forall|a: int, b: int|
                0 <= a < after.len() && 0 <= b < after.len() && (#[trigger] after[a]).path is Some
                    && (#[trigger] after[b]).path == after[a].path implies after[a].class
                == after[b].class by {
                if a < i {
                    assert(after[a] == before[a]);
                }
                if b < i {
                    assert(after[b] == before[b]);
                }
            }
            assert forall|a: int, b: int|
                0 <= a < after.len() && 0 <= b < after.len() && view[a].path
                    == view[b].path implies (#[trigger] after[a]).path == (
            #[trigger] after[b]).path by {
                assert(after[i as int].path == text);
                if a < i {
                    assert(after[a] == before[a]);
                }
                if b < i {
                    assert(after[b] == before[b]);
                }
            }
            assert forall|k: int| 0 <= k < i + 1 implies (#[trigger] after[k]).deleted
                == view[k].deleted && resolves_to(view[k].path, cwd.deep_view(), after[k].path) by {
                if k < i {
                    assert(after[k] == before[k]);
                }
            }
            assert forall|k: int| 0 <= k < after.len() implies (#[trigger] after[k]).class
                <= k by {
                if k < i {
                    assert(after[k] == before[k]);
                }
            }
            assert forall|a: int, b: int|
                0 <= a < after.len() && 0 <= b < after.len() && (#[trigger] after[a]).path is Some
                    && (#[trigger] after[b]).path is Some && after[a].class
                    == after[b].class implies loose_pieces(after[a].path->0) == loose_pieces(
                after[b].path->0,
            ) by {
                assert(after[i as int].path == text);
                if a < i {
                    assert(after[a] == before[a]);
                }
                if b < i {
                    assert(after[b] == before[b]);
                }
            }
            if all_seen_alike(after) {
                assert(after[i as int].path == text);
                assert(all_seen_alike(before)) by {
                    assert forall|a: int, b: int|
                        0 <= a < before.len() && 0 <= b < before.len() && (
                        #[trigger] before[a]).path is Some && (
                        #[trigger] before[b]).path is Some implies seen_alike(
                        before[a].path->0,
                        before[b].path->0,
                    ) by {
                        assert(after[a] == before[a] && after[b] == before[b]);
                    }
                }
                if text is Some {
                    assert forall|a: int|
                        0 <= a < before.len() && (
                        #[trigger] before[a]).path is Some implies seen_alike(
                        before[a].path->0,
                        text->0,
                    ) by {
                        assert(after[a] == before[a]);
                    }
                }
                assert forall|a: int, b: int|
                    0 <= a < after.len() && 0 <= b < after.len() && (
                    #[trigger] after[a]).path is Some && (#[trigger] after[b]).path is Some implies (
                after[a].class == after[b].class <==> path_parts(after[a].path->0) == path_parts(
                    after[b].path->0,
                )) by {
                    if a < i {
                        assert(after[a] == before[a]);
                    }
                    if b < i {
                        assert(after[b] == before[b]);
                    }
                }
            }
        }
        i += 1;
    }
    targets
}

/// The files that a patch adds, changes or moves to and does not delete.
pub fn touched_paths_from_apply_patch(command: &str, cwd: Option<&str>) -> (r: Option<Vec<String>>)
    ensures
        exists|targets: Seq<PatchTargetView>| #[trigger]
            targets_of(entries_of(lines_of(command@)), cwd.deep_view(), targets) && r.deep_view()
                == touched(targets),
{
    let entries = patch_entries(command);
    let targets = resolve_entries(&entries, cwd);
    select_touched(&targets)
}

/// What the paths to check are: at least one and no more than the limit, each
/// that of a target whose file no target deletes, and no two of the same
/// file.
pub proof fn law_touched_paths(targets: Seq<PatchTargetView>)
    requires
        same_paths_share(targets),
    ensures
        touched(targets) matches Some(paths) ==> {
            &&& 0 < paths.len() <= MAX_FILES_TO_CHECK
            &&& paths.no_duplicates()
            &&& forall|i: int|
                0 <= i < paths.len() ==> exists|j: int|
                    0 <= j < targets.len() && #[trigger] targets[j].path == Some(
                        #[trigger] paths[i],
                    ) && left_by(targets, j)
        },
        touched(targets) is None <==> (forall|j: int|
            0 <= j < targets.len() ==> !(#[trigger] left_by(targets, j))),
{
    lemma_left_paths(targets, targets.len());
}

/// A file that a patch deletes is not checked, wherever in the patch it is
/// named again.
pub proof fn law_deleted_files_are_not_checked(
    entries: Seq<PatchEntryView>,
    cwd: Option<Seq<char>>,
    targets: Seq<PatchTargetView>,
    i: int,
    j: int,
)
    requires
        targets_of(entries, cwd, targets),
        0 <= i < entries.len(),
        0 <= j < entries.len(),
        entries[i].deleted,
        entries[j].path == entries[i].path,
    ensures
        !left_by(targets, j),
        touched(targets) matches Some(paths) ==> (targets[j].path matches Some(path)
            ==> !paths.contains(path)),
{
    assert(targets[i].deleted == entries[i].deleted);
    assert(targets[j].path == targets[i].path);
    law_touched_paths(targets);
    if let (Some(paths), Some(path)) = (touched(targets), targets[j].path) {
        if paths.contains(path) {
            let n = choose|n: int| 0 <= n < paths.len() && paths[n] == path;
            assert(exists|k: int|
                0 <= k < targets.len() && #[trigger] targets[k].path == Some(paths[n]) && left_by(
                    targets,
                    k,
                ));
            let k = choose|k: int|
                0 <= k < targets.len() && #[trigger] targets[k].path == Some(paths[n]) && left_by(
                    targets,
                    k,
                );
            assert(targets[i].class == targets[k].class);
            assert(class_deleted(targets, targets[k].class));
        }
    }
}

/// A path that a patch names again is checked once: of two entries with the
/// same path at most one counts.
pub proof fn law_repeated_files_are_checked_once(
    entries: Seq<PatchEntryView>,
    cwd: Option<Seq<char>>,
    targets: Seq<PatchTargetView>,
    i: int,
    j: int,
)
    requires
        targets_of(entries, cwd, targets),
        0 <= i < j < entries.len(),
        entries[i].path == entries[j].path,
    ensures
        !(left_by(targets, i) && left_by(targets, j)),
{
    assert(targets[i].path == targets[j].path);
}

proof fn lemma_left_paths(targets: Seq<PatchTargetView>, n: nat)
    requires
        same_paths_share(targets),
        n <= targets.len(),
    ensures
        left_paths(targets, n).no_duplicates(),
        forall|i: int|
            0 <= i < left_paths(targets, n).len() ==> exists|j: int|
                0 <= j < n && #[trigger] targets[j].path == Some(
                    #[trigger] left_paths(targets, n)[i],
                ) && left_by(targets, j),
        left_paths(targets, n).len() == 0 <==> (forall|j: int|
            0 <= j < n ==> !(#[trigger] left_by(targets, j))),
    decreases n,
{
    if n > 0 {
        let m = (n - 1) as nat;
        lemma_left_paths(targets, m);
        let before = left_paths(targets, m);
        let all = left_paths(targets, n);
        if left_by(targets, n - 1) {
            let new = targets[n - 1].path->0;
            assert forall|i: int| 0 <= i < before.len() implies before[i] != new by {
                let j = choose|j: int|
                    0 <= j < m && #[trigger] targets[j].path == Some(before[i]) && left_by(
                        targets,
                        j,
                    );
                if before[i] == new {
                    assert(targets[j].path == targets[n - 1].path);
                    assert(targets[j].class == targets[n - 1].class);
                }
            }
            assert forall|i: int| 0 <= i < all.len() implies exists|j: int|
                0 <= j < n && #[trigger] targets[j].path == Some(#[trigger] all[i]) && left_by(
                    targets,
                    j,
                ) by {
                if i < before.len() {
                    assert(all[i] == before[i]);
                    let j = choose|j: int|
                        0 <= j < m && #[trigger] targets[j].path == Some(before[i]) && left_by(
                            targets,
                            j,
                        );
                    assert(targets[j].path == Some(all[i]));
                } else {
                    assert(targets[n - 1].path == Some(all[i]));
                }
            }
        }
    }
}

// The answer of the patch tool.

/// Whether the answer in compact notation tells of no failure.
pub open spec fn no_failure(answer: Seq<char>) -> bool {
    let lower = ascii_lowercase(answer);
    &&& !has_text(lower, "error"@)
    &&& !has_text(lower, "failed"@)
    &&& !has_text(lower, "invalid context"@)
    &&& !has_text(lower, "patch failed"@)
    &&& !has_text(lower, "did not apply"@)
    &&& !has_text(lower, "exception"@)
}

/// Whether an answer in compact notation tells of no failure.
pub fn answer_is_clean(answer: &str) -> (r: bool)
    ensures
        r == no_failure(answer@),
{
    let lower = to_ascii_lowercase(answer);
    let l = lower.as_str();
    !contains(l, "error") && !contains(l, "failed") && !contains(l, "invalid context")
        && !contains(l, "patch failed") && !contains(l, "did not apply") && !contains(
        l,
        "exception",
    )
}

/// Whether the patch was applied, going by the tool's answer, a JSON text:
/// there is one, and its compact notation tells of no failure.
pub fn apply_patch_succeeded(tool_response: Option<&str>) -> (r: bool)
    ensures
        r == (tool_response.deep_view() matches Some(text) && compact_json(text) matches Some(
            answer,
        ) && no_failure(answer)),
{
    match tool_response {
        Some(text) => match compact(text) {
            Some(answer) => answer_is_clean(answer.as_str()),
            None => false,
        },
        None => false,
    }
}

} // verus!
