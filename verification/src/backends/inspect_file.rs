//! The inspection of one file: small files in full, large ones in outline.
#![verifier::loop_isolation(false)]

use crate::bytes::{decoded, from_utf8, has_zero, slice_text, text_between};
use crate::case::{ascii_lowercase, to_ascii_lowercase};
use crate::error::BackendError;
use crate::number::{decimal, push_decimal};
use crate::paths::{lower_extension, lowercase_extension, name_of, names};
use crate::split::{join, joined, lines, lines_of, replace, replaced};
use crate::syntax::{
    child_by_field_name, field_child, parse_nodes, parsed_nodes, Grammar, NodeView, SyntaxNode,
};
use crate::text::{
    contains, contains_char, ends_char, ends_with, ends_with_char, has_prefix, has_suffix, has_text,
    leading, lemma_leading, owned, push_item, same, starts_char,
    starts_with, starts_with_char, strip_prefixes, text_range, to_chars, trim, trim_class,
    trim_start, trimmed, trimmed_of, trimmed_start, without_prefixes, CharClass,
};
use vstd::prelude::*;
use vstd::string::*;

verus! {

/// What a file holds, as far as inspection goes.
#[derive(Debug, Clone, Copy, PartialEq, Eq, Structural)]
pub enum FileKind {
    Code,
    Config,
    Lockfile,
    Markdown,
    Text,
    Unknown,
}

/// How much of a file is shown.
#[derive(Debug, Clone, Copy, PartialEq, Eq, Structural)]
pub enum Rendering {
    Full,
    Outline,
    Preview,
    Summary,
}

/// What is shown of a file.
#[derive(Debug, Clone, PartialEq, Eq)]
pub struct FileInspection {
    pub file_path: String,
    pub file_kind: &'static str,
    pub render: &'static str,
    pub bytes: u64,
    pub lines: usize,
    pub body: String,
}

/// The contents of an inspection.
#[verifier::ext_equal]
pub ghost struct InspectionView {
    pub file_path: Seq<char>,
    pub file_kind: Seq<char>,
    pub render: Seq<char>,
    pub bytes: u64,
    pub lines: nat,
    pub body: Seq<char>,
}

impl DeepView for FileInspection {
    type V = InspectionView;

    open spec fn deep_view(&self) -> InspectionView {
        InspectionView {
            file_path: self.file_path@,
            file_kind: self.file_kind@,
            render: self.render@,
            bytes: self.bytes,
            lines: self.lines as nat,
            body: self.body@,
        }
    }
}

impl FileKind {
    /// The word for a kind.
    pub open spec fn word(self) -> Seq<char> {
        match self {
            FileKind::Code => "code"@,
            FileKind::Config => "config"@,
            FileKind::Lockfile => "lockfile"@,
            FileKind::Markdown => "markdown"@,
            FileKind::Text => "text"@,
            FileKind::Unknown => "unknown"@,
        }
    }

    /// The word for a kind.
    pub fn as_str(self) -> (r: &'static str)
        ensures
            r@ == self.word(),
    {
        match self {
            FileKind::Code => "code",
            FileKind::Config => "config",
            FileKind::Lockfile => "lockfile",
            FileKind::Markdown => "markdown",
            FileKind::Text => "text",
            FileKind::Unknown => "unknown",
        }
    }
}

impl Rendering {
    /// The word for a rendering.
    pub open spec fn word(self) -> Seq<char> {
        match self {
            Rendering::Full => "full"@,
            Rendering::Outline => "outline"@,
            Rendering::Preview => "preview"@,
            Rendering::Summary => "summary"@,
        }
    }

    /// The word for a rendering.
    pub fn as_str(self) -> (r: &'static str)
        ensures
            r@ == self.word(),
    {
        match self {
            Rendering::Full => "full",
            Rendering::Outline => "outline",
            Rendering::Preview => "preview",
            Rendering::Summary => "summary",
        }
    }
}

// Kinds.

/// The names of lock files, in lower case.
pub open spec fn lockfile_name(name: Seq<char>) -> bool {
    ||| name == "cargo.lock"@
    ||| name == "package-lock.json"@
    ||| name == "pnpm-lock.yaml"@
    ||| name == "yarn.lock"@
    ||| name == "bun.lockb"@
    ||| has_suffix(name, ".lock"@)
}

/// The names of configuration files, in lower case.
pub open spec fn config_name(name: Seq<char>) -> bool {
    ||| has_prefix(name, ".env"@)
    ||| name == "dockerfile"@
    ||| name == "makefile"@
    ||| name == ".gitignore"@
    ||| name == ".gitattributes"@
    ||| name == ".editorconfig"@
    ||| name == ".npmrc"@
    ||| name == ".yarnrc"@
    ||| name == ".dockerignore"@
}

fn is_lockfile_name(n: &str) -> (r: bool)
    ensures
        r == lockfile_name(n@),
{
    same(n, "cargo.lock") || same(n, "package-lock.json") || same(n, "pnpm-lock.yaml") || same(
        n,
        "yarn.lock",
    ) || same(n, "bun.lockb") || ends_with(n, ".lock")
}

fn is_config_name(n: &str) -> (r: bool)
    ensures
        r == config_name(n@),
{
    starts_with(n, ".env") || same(n, "dockerfile") || same(n, "makefile") || same(n, ".gitignore")
        || same(n, ".gitattributes") || same(n, ".editorconfig") || same(n, ".npmrc") || same(
        n,
        ".yarnrc",
    ) || same(n, ".dockerignore")
}

/// The kind of a file with the given extension in lower case.
pub open spec fn kind_of_extension(e: Seq<char>) -> FileKind {
    if e == "rs"@ || e == "py"@ || e == "c"@ || e == "cc"@ || e == "cpp"@ || e == "h"@ || e
        == "hpp"@ || e == "gd"@ {
        FileKind::Code
    } else if e == "json"@ || e == "toml"@ || e == "yaml"@ || e == "yml"@ || e == "tres"@ || e
        == "cfg"@ || e == "ini"@ {
        FileKind::Config
    } else if e == "md"@ || e == "mdx"@ || e == "txt"@ {
        FileKind::Markdown
    } else {
        FileKind::Unknown
    }
}

fn kind_for_extension(e: &str) -> (r: FileKind)
    ensures
        r == kind_of_extension(e@),
{
    if same(e, "rs") || same(e, "py") || same(e, "c") || same(e, "cc") || same(e, "cpp") || same(
        e,
        "h",
    ) || same(e, "hpp") || same(e, "gd") {
        FileKind::Code
    } else if same(e, "json") || same(e, "toml") || same(e, "yaml") || same(e, "yml") || same(
        e,
        "tres",
    ) || same(e, "cfg") || same(e, "ini") {
        FileKind::Config
    } else if same(e, "md") || same(e, "mdx") || same(e, "txt") {
        FileKind::Markdown
    } else {
        FileKind::Unknown
    }
}

/// Whether a line sets a key.
pub open spec fn config_key_line(line: Seq<char>) -> bool {
    !starts_char(line, '#') && !has_prefix(line, "//"@) && (line.contains('=') || line.contains(
        ':',
    ))
}

/// Whether a line starts a section.
pub open spec fn section_line(line: Seq<char>) -> bool {
    starts_char(line, '[') && ends_char(line, ']')
}

fn is_config_key_line(line: &str) -> (r: bool)
    ensures
        r == config_key_line(line@),
{
    !starts_with_char(line, '#') && !starts_with(line, "//") && (contains_char(line, '=')
        || contains_char(line, ':'))
}

fn is_section_line(line: &str) -> (r: bool)
    ensures
        r == section_line(line@),
{
    starts_with_char(line, '[') && ends_with_char(line, ']')
}

/// Whether a trimmed line says something: it is not empty and no comment.
pub open spec fn meaningful_line(line: Seq<char>) -> bool {
    line.len() > 0 && !starts_char(line, '#') && !has_prefix(line, "//"@)
}

/// How many lines say something.
pub open spec fn meaningful_count(lines: Seq<Seq<char>>) -> nat
    decreases lines.len(),
{
    if lines.len() == 0 {
        0
    } else {
        meaningful_count(lines.drop_last()) + if meaningful_line(trimmed(lines.last())) {
            1nat
        } else {
            0nat
        }
    }
}

/// How many lines say something and read like configuration.
pub open spec fn config_count(lines: Seq<Seq<char>>) -> nat
    decreases lines.len(),
{
    if lines.len() == 0 {
        0
    } else {
        let line = trimmed(lines.last());
        config_count(lines.drop_last()) + if meaningful_line(line) && (section_line(line)
            || config_key_line(line)) {
            1nat
        } else {
            0nat
        }
    }
}

/// The first lines, at most `n`.
pub open spec fn first_n<A>(s: Seq<A>, n: nat) -> Seq<A> {
    if s.len() > n {
        s.take(n as int)
    } else {
        s
    }
}

/// Whether a file reads like configuration: at least half of what its first
/// fifty lines say does.
pub open spec fn config_like(lines: Seq<Seq<char>>) -> bool {
    let head = first_n(lines, 50);
    meaningful_count(head) > 0 && config_count(head) * 2 >= meaningful_count(head)
}

/// Whether a file says something in its first twenty lines.
pub open spec fn text_like(lines: Seq<Seq<char>>) -> bool {
    exists|i: int| 0 <= i < lines.len() && i < 20 && trimmed(#[trigger] lines[i]).len() > 0
}

/// Whether the lines of a file read like configuration.
pub fn looks_like_config(lines: &Vec<String>) -> (r: bool)
    ensures
        r == config_like(lines.deep_view()),
{
    let ghost view = lines.deep_view();
    let count: usize = if lines.len() > 50 {
        50
    } else {
        lines.len()
    };
    let mut meaningful: usize = 0;
    let mut config: usize = 0;
    let mut i: usize = 0;
    while i < count
        invariant
            i <= count <= lines.len(),
            count <= 50,
            meaningful == meaningful_count(view.take(i as int)),
            config == config_count(view.take(i as int)),
            config <= meaningful <= i,
        decreases count - i,
    {
        proof {
            assert(view.take(i + 1).drop_last() =~= view.take(i as int));
            assert(view.take(i + 1).last() == lines[i as int]@);
        }
        let line = trim(lines[i].as_str());
        let l = line.as_str();
        if l.unicode_len() > 0 && !starts_with_char(l, '#') && !starts_with(l, "//") {
            meaningful += 1;
            if is_section_line(l) || is_config_key_line(l) {
                config += 1;
            }
        }
        i += 1;
    }
    assert(view.take(count as int) =~= first_n(view, 50));
    meaningful > 0 && config * 2 >= meaningful
}

/// Whether a file says something in its first lines.
pub fn looks_like_text(lines: &Vec<String>) -> (r: bool)
    ensures
        r == text_like(lines.deep_view()),
{
    let ghost view = lines.deep_view();
    let mut i: usize = 0;
    while i < lines.len() && i < 20
        invariant
            i <= lines.len(),
            i <= 20,
            forall|j: int| 0 <= j < i ==> trimmed(#[trigger] view[j]).len() == 0,
        decreases lines.len() - i,
    {
        assert(view[i as int] == lines[i as int]@);
        let line = trim(lines[i].as_str());
        if line.as_str().unicode_len() > 0 {
            assert(trimmed(view[i as int]).len() > 0);
            return true;
        }
        i += 1;
    }
    false
}

/// The kind of a file with the given name and lines: by the whole name, then
/// by the extension, then by what the lines read like.
pub open spec fn kind_of(name: Seq<char>, lines: Seq<Seq<char>>) -> FileKind {
    let lower = ascii_lowercase(name);
    let by_extension = match lower_extension(name) {
        Some(extension) => kind_of_extension(extension),
        None => FileKind::Unknown,
    };
    if lockfile_name(lower) {
        FileKind::Lockfile
    } else if config_name(lower) {
        FileKind::Config
    } else if !(by_extension is Unknown) {
        by_extension
    } else if config_like(lines) {
        FileKind::Config
    } else if text_like(lines) {
        FileKind::Text
    } else {
        FileKind::Unknown
    }
}

impl FileKind {
    /// The kind of a file with the given name and lines.
    pub fn from_name_and_text(name: &str, lines: &Vec<String>) -> (r: FileKind)
        ensures
            r == kind_of(name@, lines.deep_view()),
    {
        let lower = to_ascii_lowercase(name);
        if is_lockfile_name(lower.as_str()) {
            return FileKind::Lockfile;
        }
        if is_config_name(lower.as_str()) {
            return FileKind::Config;
        }
        let by_extension = match lowercase_extension(name) {
            Some(extension) => kind_for_extension(extension.as_str()),
            None => FileKind::Unknown,
        };
        if !matches!(by_extension, FileKind::Unknown) {
            return by_extension;
        }
        if looks_like_config(lines) {
            FileKind::Config
        } else if looks_like_text(lines) {
            FileKind::Text
        } else {
            FileKind::Unknown
        }
    }
}

/// Whether a file is shown in full.
pub open spec fn small(kind: FileKind, bytes: u64, lines: nat) -> bool {
    match kind {
        FileKind::Code => bytes <= 12 * 1024 && lines <= 300,
        FileKind::Config => bytes <= 64 * 1024 && lines <= 2_000,
        FileKind::Lockfile => bytes <= 64 * 1024 && lines <= 2_000,
        FileKind::Markdown => bytes <= 64 * 1024 && lines <= 2_000,
        FileKind::Text => bytes <= 16 * 1024 && lines <= 400,
        FileKind::Unknown => bytes <= 16 * 1024 && lines <= 400,
    }
}

/// Whether a file is shown in full.
pub fn is_small_file(kind: FileKind, bytes: u64, lines: usize) -> (r: bool)
    ensures
        r == small(kind, bytes, lines as nat),
{
    match kind {
        FileKind::Code => bytes <= 12 * 1024 && lines <= 300,
        FileKind::Config | FileKind::Lockfile | FileKind::Markdown => bytes <= 64 * 1024 && lines
            <= 2_000,
        FileKind::Text | FileKind::Unknown => bytes <= 16 * 1024 && lines <= 400,
    }
}

/// How a file is shown.
pub open spec fn rendering_of(kind: FileKind, bytes: u64, lines: nat) -> Rendering {
    if small(kind, bytes, lines) {
        Rendering::Full
    } else if kind is Code {
        Rendering::Outline
    } else if kind is Unknown {
        Rendering::Preview
    } else {
        Rendering::Summary
    }
}

// Lines of the body.

/// A value on one line of bounded length: trimmed, with spaces for tabs, and
/// cut after 180 characters.
pub open spec fn compacted(value: Seq<char>) -> Seq<char> {
    let line = replaced(trimmed(value), "\t"@, " "@);
    if line.len() > 180 {
        line.take(180) + "..."@
    } else {
        line
    }
}

/// A value on one line of bounded length.
pub fn compact(value: &str) -> (r: String)
    ensures
        r@ == compacted(value@),
{
    let line = replace(trim(value).as_str(), "\t", " ");
    let chars = to_chars(line.as_str());
    if chars.len() > 180 {
        let mut out = text_range(&chars, 0, 180);
        assert(out@ =~= line@.take(180));
        out.append("...");
        out
    } else {
        line
    }
}

/// A line of the body: the line number, the sort of the record, and its
/// text.
pub open spec fn record(number: nat, label: Seq<char>, text: Seq<char>) -> Seq<char> {
    "L"@ + decimal(number) + label + text
}

fn make_record(number: u128, label: &str, text: &str) -> (r: String)
    ensures
        r@ == record(number as nat, label@, text@),
{
    let mut out = owned("L");
    push_decimal(&mut out, number);
    out.append(label);
    out.append(text);
    out
}

/// All lines with their numbers.
pub open spec fn numbered(lines: Seq<Seq<char>>) -> Seq<Seq<char>> {
    lines.map(|i: int, line: Seq<char>| record((i + 1) as nat, " | "@, line))
}

fn number_lines(lines: &Vec<String>) -> (r: Vec<String>)
    ensures
        r.deep_view() == numbered(lines.deep_view()),
{
    let ghost all = numbered(lines.deep_view());
    let mut out: Vec<String> = Vec::new();
    let mut i: usize = 0;
    assert(out.deep_view() =~= all.take(0));
    while i < lines.len()
        invariant
            i <= lines.len(),
            out.deep_view() == all.take(i as int),
        decreases lines.len() - i,
    {
        assert(lines.deep_view()[i as int] == lines[i as int]@);
        push_item(&mut out, make_record(i as u128 + 1, " | ", lines[i].as_str()));
        i += 1;
        assert(out.deep_view() =~= all.take(i as int));
    }
    assert(all.take(i as int) =~= all);
    out
}

/// The key of a line that sets one: what stands before the first equals sign
/// or colon, without quotes and white space.
pub open spec fn key_of(line: Seq<char>) -> Seq<char> {
    trimmed(trimmed_of(line.take(key_len(line) as int), CharClass::Only('"')))
}

/// How long a key is.
pub open spec fn key_len(line: Seq<char>) -> nat
    decreases line.len(),
{
    if line.len() == 0 || line[0] == '=' || line[0] == ':' {
        0
    } else {
        1 + key_len(line.skip(1))
    }
}

proof fn lemma_key_len(line: Seq<char>, n: nat)
    requires
        n <= line.len(),
        forall|j: int| 0 <= j < n ==> line[j] != '=' && line[j] != ':',
        n < line.len() ==> line[n as int] == '=' || line[n as int] == ':',
    ensures
        key_len(line) == n,
    decreases n,
{
    if n > 0 {
        assert forall|j: int| 0 <= j < n - 1 implies line.skip(1)[j] != '=' && line.skip(1)[j]
            != ':' by {
            assert(line.skip(1)[j] == line[j + 1]);
        }
        lemma_key_len(line.skip(1), (n - 1) as nat);
    }
}

/// The key of a line that sets one.
pub fn config_key(line: &str) -> (r: String)
    ensures
        r@ == key_of(line@),
{
    let chars = to_chars(line);
    let mut n: usize = 0;
    while n < chars.len() && chars[n] != '=' && chars[n] != ':'
        invariant
            n <= chars.len(),
            forall|j: int| 0 <= j < n ==> chars@[j] != '=' && chars@[j] != ':',
        decreases chars.len() - n,
    {
        n += 1;
    }
    proof {
        lemma_key_len(chars@, n as nat);
    }
    let key = text_range(&chars, 0, n);
    assert(key@ =~= line@.take(n as int));
    trim(trim_class(key.as_str(), CharClass::Only('"')).as_str())
}

/// What a line of a configuration file says, if it starts a section or sets a
/// key.
pub open spec fn config_record(line: Seq<char>, number: nat) -> Option<Seq<char>> {
    let line = trimmed(line);
    if section_line(line) {
        Some(record(number, " section | "@, line))
    } else if config_key_line(line) {
        Some(record(number, " key | "@, key_of(line)))
    } else {
        None
    }
}

/// What a line of code defines, going by how it starts.
pub open spec fn outline_record(line: Seq<char>, number: nat) -> Option<Seq<char>> {
    let line = trimmed_start(line, CharClass::Space);
    if has_prefix(line, "fn "@) || has_prefix(line, "def "@) || has_prefix(line, "func "@)
        || has_text(line, " function "@) {
        Some(record(number, " symbol | function "@, compacted(line)))
    } else if has_prefix(line, "class "@) {
        Some(record(number, " symbol | class "@, compacted(line)))
    } else if has_prefix(line, "struct "@) {
        Some(record(number, " symbol | struct "@, compacted(line)))
    } else if has_prefix(line, "const "@) || has_prefix(line, "static "@) {
        Some(record(number, " symbol | constant "@, compacted(line)))
    } else {
        None
    }
}

/// A line that says something.
pub open spec fn preview_record(line: Seq<char>, number: nat) -> Option<Seq<char>> {
    if trimmed(line).len() > 0 {
        Some(record(number, " preview | "@, compacted(line)))
    } else {
        None
    }
}

/// Which lines a summary takes, and what it says of them.
#[derive(Debug, Clone, Copy)]
pub enum LineSummary {
    Config,
    Outline,
    Preview,
}

impl LineSummary {
    /// What is said of a line with the given number.
    pub open spec fn record(self, line: Seq<char>, number: nat) -> Option<Seq<char>> {
        match self {
            LineSummary::Config => config_record(line, number),
            LineSummary::Outline => outline_record(line, number),
            LineSummary::Preview => preview_record(line, number),
        }
    }

    fn take(self, line: &str, number: u128) -> (r: Option<String>)
        ensures
            r.deep_view() == self.record(line@, number as nat),
    {
        match self {
            LineSummary::Config => {
                let line = trim(line);
                let l = line.as_str();
                if is_section_line(l) {
                    Some(make_record(number, " section | ", l))
                } else if is_config_key_line(l) {
                    Some(make_record(number, " key | ", config_key(l).as_str()))
                } else {
                    None
                }
            },
            LineSummary::Outline => {
                let line = trim_start(line);
                let l = line.as_str();
                let label = if starts_with(l, "fn ") || starts_with(l, "def ") || starts_with(
                    l,
                    "func ",
                ) || contains(l, " function ") {
                    " symbol | function "
                } else if starts_with(l, "class ") {
                    " symbol | class "
                } else if starts_with(l, "struct ") {
                    " symbol | struct "
                } else if starts_with(l, "const ") || starts_with(l, "static ") {
                    " symbol | constant "
                } else {
                    return None;
                };
                Some(make_record(number, label, compact(l).as_str()))
            },
            LineSummary::Preview => {
                if trim(line).as_str().unicode_len() > 0 {
                    Some(make_record(number, " preview | ", compact(line).as_str()))
                } else {
                    None
                }
            },
        }
    }
}

/// What a summary says of the lines, in order.
pub open spec fn summary_records(summary: LineSummary, lines: Seq<Seq<char>>) -> Seq<Seq<char>>
    decreases lines.len(),
{
    if lines.len() == 0 {
        Seq::empty()
    } else {
        let before = summary_records(summary, lines.drop_last());
        match summary.record(lines.last(), lines.len()) {
            Some(text) => before.push(text),
            None => before,
        }
    }
}

proof fn lemma_records_grow(summary: LineSummary, lines: Seq<Seq<char>>, n: int)
    requires
        0 <= n <= lines.len(),
    ensures
        summary_records(summary, lines.take(n)).len() <= summary_records(summary, lines).len(),
        summary_records(summary, lines).take(
            summary_records(summary, lines.take(n)).len() as int,
        ) == summary_records(summary, lines.take(n)),
    decreases lines.len() - n,
{
    let short = summary_records(summary, lines.take(n));
    if n == lines.len() {
        assert(lines.take(n) =~= lines);
        assert(short.take(short.len() as int) =~= short);
    } else {
        lemma_records_grow(summary, lines, n + 1);
        assert(lines.take(n + 1).drop_last() =~= lines.take(n));
        let middle = summary_records(summary, lines.take(n + 1));
        let all = summary_records(summary, lines);
        assert(all.take(short.len() as int) =~= short) by {
            assert forall|j: int| 0 <= j < short.len() implies all[j] == short[j] by {
                assert(all.take(middle.len() as int)[j] == middle[j]);
            }
        }
    }
}

fn summarize(summary: LineSummary, lines: &Vec<String>, limit: usize) -> (r: Vec<String>)
    ensures
        r.deep_view() == first_n(summary_records(summary, lines.deep_view()), limit as nat),
{
    let ghost view = lines.deep_view();
    let mut out: Vec<String> = Vec::new();
    let mut i: usize = 0;
    assert(out.deep_view() =~= summary_records(summary, view.take(0)));
    while i < lines.len() && out.len() < limit
        invariant
            i <= lines.len(),
            out.len() <= limit,
            out.deep_view() == summary_records(summary, view.take(i as int)),
        decreases lines.len() - i,
    {
        proof {
            assert(view.take(i + 1).drop_last() =~= view.take(i as int));
            assert(view.take(i + 1).last() == lines[i as int]@);
        }
        if let Some(text) = summary.take(lines[i].as_str(), i as u128 + 1) {
            push_item(&mut out, text);
        }
        i += 1;
    }
    proof {
        lemma_records_grow(summary, view, i as int);
        if i == lines.len() {
            assert(view.take(i as int) =~= view);
        } else {
            let all = summary_records(summary, view);
            if all.len() == limit {
                assert(all.take(limit as int) =~= all);
            }
        }
    }
    out
}

/// The sections and keys of a configuration file, at most two hundred.
pub fn config_summary(lines: &Vec<String>) -> (r: Vec<String>)
    ensures
        r.deep_view() == first_n(summary_records(LineSummary::Config, lines.deep_view()), 200),
{
    summarize(LineSummary::Config, lines, 200)
}

/// What the lines of a text of code define, going by how they start.
pub fn regex_outline(text: &str) -> (r: Vec<String>)
    ensures
        r.deep_view() == summary_records(LineSummary::Outline, lines_of(text@)),
{
    let all = lines(text);
    proof {
        lemma_records_bounded(LineSummary::Outline, all.deep_view());
    }
    summarize(LineSummary::Outline, &all, all.len())
}

proof fn lemma_records_bounded(summary: LineSummary, lines: Seq<Seq<char>>)
    ensures
        summary_records(summary, lines).len() <= lines.len(),
    decreases lines.len(),
{
    if lines.len() > 0 {
        lemma_records_bounded(summary, lines.drop_last());
    }
}

/// The first lines that say something, at most five, or a note that none
/// does.
pub open spec fn preview_of(lines: Seq<Seq<char>>) -> Seq<Seq<char>> {
    let records = first_n(summary_records(LineSummary::Preview, lines), 5);
    if records.len() == 0 {
        seq!["preview=<empty>"@]
    } else {
        records
    }
}

/// The first lines that say something.
pub fn non_empty_preview(lines: &Vec<String>) -> (r: Vec<String>)
    ensures
        r.deep_view() == preview_of(lines.deep_view()),
{
    let mut output = summarize(LineSummary::Preview, lines, 5);
    if output.len() == 0 {
        push_item(&mut output, owned("preview=<empty>"));
        assert(output.deep_view() =~= seq!["preview=<empty>"@]);
    }
    output
}

// Markdown.

/// The record of a fenced block.
pub open spec fn fence_record(start: nat, end: nat, language: Seq<char>) -> Seq<char> {
    record(start, " fence | range=L"@, decimal(start)) + "-L"@ + decimal(end) + if language.len()
        == 0 {
        Seq::empty()
    } else {
        " lang="@ + language
    }
}

/// The record of a heading on a line that starts with a hash sign.
pub open spec fn heading_record(line: Seq<char>, number: nat) -> Seq<char> {
    let level = leading(line, CharClass::Only('#'));
    record(number, " heading | h"@, decimal(level)) + " "@ + trimmed(line.skip(level as int))
}

/// The headings and fenced blocks in the lines, in the order in which they
/// end, and the open block: its line and its language.
pub open spec fn markdown_records(lines: Seq<Seq<char>>) -> (
    Seq<Seq<char>>,
    Option<(nat, Seq<char>)>,
)
    decreases lines.len(),
{
    if lines.len() == 0 {
        (Seq::empty(), None)
    } else {
        let (records, fence) = markdown_records(lines.drop_last());
        let line = trimmed_start(lines.last(), CharClass::Space);
        let number = lines.len();
        let (records, fence) = if has_prefix(line, "```"@) {
            match fence {
                Some((start, language)) => (
                    records.push(fence_record(start, number, language)),
                    None,
                ),
                None => (records, Some((number, trimmed(without_prefixes(line, "```"@))))),
            }
        } else {
            (records, fence)
        };
        if starts_char(line, '#') {
            (records.push(heading_record(line, number)), fence)
        } else {
            (records, fence)
        }
    }
}

fn make_fence(start: usize, end: usize, language: &str) -> (r: String)
    ensures
        r@ == fence_record(start as nat, end as nat, language@),
{
    let mut out = owned("L");
    push_decimal(&mut out, start as u128);
    out.append(" fence | range=L");
    push_decimal(&mut out, start as u128);
    out.append("-L");
    push_decimal(&mut out, end as u128);
    if language.unicode_len() > 0 {
        out.append(" lang=");
        out.append(language);
    }
    assert(out@ =~= fence_record(start as nat, end as nat, language@));
    out
}

fn make_heading(line: &str, number: usize) -> (r: String)
    ensures
        r@ == heading_record(line@, number as nat),
{
    let chars = to_chars(line);
    let mut level: usize = 0;
    while level < chars.len() && chars[level] == '#'
        invariant
            level <= chars.len(),
            forall|j: int| 0 <= j < level ==> chars@[j] == '#',
        decreases chars.len() - level,
    {
        level += 1;
    }
    proof {
        lemma_leading(chars@, CharClass::Only('#'), level as nat);
    }
    let title = text_range(&chars, level, chars.len());
    assert(title@ =~= line@.skip(level as int));
    let mut out = owned("L");
    push_decimal(&mut out, number as u128);
    out.append(" heading | h");
    push_decimal(&mut out, level as u128);
    out.append(" ");
    out.append(trim(title.as_str()).as_str());
    assert(out@ =~= heading_record(line@, number as nat));
    out
}

/// The headings and closed fenced blocks of a Markdown file.
pub fn markdown_summary(lines: &Vec<String>) -> (r: Vec<String>)
    ensures
        r.deep_view() == markdown_records(lines.deep_view()).0,
{
    let ghost view = lines.deep_view();
    let mut output: Vec<String> = Vec::new();
    let mut fence: Option<(usize, String)> = None;
    let mut i: usize = 0;
    assert(output.deep_view() =~= Seq::<Seq<char>>::empty());
    while i < lines.len()
        invariant
            i <= lines.len(),
            markdown_records(view.take(i as int)) == (
                output.deep_view(),
                match fence {
                    Some((start, language)) => Some((start as nat, language@)),
                    None => None,
                },
            ),
        decreases lines.len() - i,
    {
        proof {
            assert(view.take(i + 1).drop_last() =~= view.take(i as int));
            assert(view.take(i + 1).last() == lines[i as int]@);
        }
        let line = trim_start(lines[i].as_str());
        i += 1;
        if starts_with(line.as_str(), "```") {
            match fence {
                Some((start, language)) => {
                    push_item(&mut output, make_fence(start, i, language.as_str()));
                    fence = None;
                },
                None => {
                    let language = trim(strip_prefixes(line.as_str(), "```").as_str());
                    fence = Some((i, language));
                },
            }
        }
        if starts_with_char(line.as_str(), '#') {
            push_item(&mut output, make_heading(line.as_str(), i));
        }
    }
    assert(view.take(i as int) =~= view);
    output
}

// Code.

/// What a node of the given kind defines.
pub open spec fn symbol_category(kind: Seq<char>) -> Option<Seq<char>> {
    if kind == "function_item"@ || kind == "function_definition"@ || kind
        == "function_declaration"@ || kind == "method_definition"@ || kind
        == "function_declarator"@ || kind == "function_statement"@ {
        Some("function "@)
    } else if kind == "class_definition"@ || kind == "class_declaration"@ {
        Some("class "@)
    } else if kind == "struct_item"@ || kind == "struct_specifier"@ {
        Some("struct "@)
    } else if kind == "enum_item"@ {
        Some("enum "@)
    } else if kind == "interface_declaration"@ {
        Some("interface "@)
    } else if kind == "const_item"@ || kind == "static_item"@ {
        Some("constant "@)
    } else if kind == "let_declaration"@ || kind == "assignment_statement"@ {
        Some("variable "@)
    } else {
        None
    }
}

fn category_for(k: &str) -> (r: Option<&'static str>)
    ensures
        r.deep_view() == symbol_category(k@),
{
    if same(k, "function_item") || same(k, "function_definition") || same(
        k,
        "function_declaration",
    ) || same(k, "method_definition") || same(k, "function_declarator") || same(
        k,
        "function_statement",
    ) {
        Some("function ")
    } else if same(k, "class_definition") || same(k, "class_declaration") {
        Some("class ")
    } else if same(k, "struct_item") || same(k, "struct_specifier") {
        Some("struct ")
    } else if same(k, "enum_item") {
        Some("enum ")
    } else if same(k, "interface_declaration") {
        Some("interface ")
    } else if same(k, "const_item") || same(k, "static_item") {
        Some("constant ")
    } else if same(k, "let_declaration") || same(k, "assignment_statement") {
        Some("variable ")
    } else {
        None
    }
}

/// The text of a node.
pub open spec fn node_text(node: NodeView, text: Seq<char>) -> Option<Seq<char>> {
    text_between(text, node.start_byte as int, node.end_byte as int)
}

/// The child that names node `i`.
pub open spec fn naming_child(nodes: Seq<NodeView>, i: int) -> Option<int> {
    let depth = nodes[i].depth as int;
    match field_child(nodes, depth, i + 1, "name"@) {
        Some(j) => Some(j),
        None => field_child(nodes, depth, i + 1, "declarator"@),
    }
}

/// The first line of a text, or nothing.
pub open spec fn first_line_of(text: Option<Seq<char>>) -> Seq<char> {
    match text {
        Some(text) => if lines_of(text).len() > 0 {
            lines_of(text)[0]
        } else {
            Seq::empty()
        },
        None => Seq::empty(),
    }
}

/// The name of node `i`: the text of the child that names it, or else its
/// first line.
pub open spec fn symbol_name(nodes: Seq<NodeView>, i: int, text: Seq<char>) -> Seq<char> {
    let named = match naming_child(nodes, i) {
        Some(j) => node_text(nodes[j], text),
        None => None,
    };
    match named {
        Some(name) => name,
        None => first_line_of(node_text(nodes[i], text)),
    }
}

/// What node `i` defines, if it defines something: its line, sort and name,
/// and its range where it has more than one line.
pub open spec fn symbol_record(nodes: Seq<NodeView>, i: int, text: Seq<char>) -> Option<
    Seq<char>,
> {
    let start = (nodes[i].start_row + 1) as nat;
    let end = (nodes[i].end_row + 1) as nat;
    match symbol_category(nodes[i].kind) {
        Some(category) => {
            let line = record(
                start,
                " symbol | "@,
                category + compacted(symbol_name(nodes, i, text)),
            );
            if start == end {
                Some(line)
            } else {
                Some(line + " range=L"@ + decimal(start) + "-L"@ + decimal(end))
            }
        },
        None => None,
    }
}

/// What the first `n` nodes define.
pub open spec fn symbol_records(nodes: Seq<NodeView>, n: nat, text: Seq<char>) -> Seq<Seq<char>>
    decreases n,
{
    if n == 0 {
        Seq::empty()
    } else {
        let before = symbol_records(nodes, (n - 1) as nat, text);
        match symbol_record(nodes, n - 1, text) {
            Some(line) => before.push(line),
            None => before,
        }
    }
}

fn find_symbol_name(nodes: &Vec<SyntaxNode>, i: usize, text: &str) -> (r: String)
    requires
        i < nodes.len(),
    ensures
        r@ == symbol_name(nodes.deep_view(), i as int, text@),
{
    let ghost view = nodes.deep_view();
    assert(view[i as int] == nodes[i as int].deep_view());
    let child = match child_by_field_name(nodes, i, "name") {
        Some(j) => Some(j),
        None => child_by_field_name(nodes, i, "declarator"),
    };
    if let Some(j) = child {
        assert(view[j as int] == nodes[j as int].deep_view());
        if let Some(name) = slice_text(text, nodes[j].start_byte, nodes[j].end_byte) {
            return name;
        }
    }
    match slice_text(text, nodes[i].start_byte, nodes[i].end_byte) {
        Some(whole) => {
            let all = lines(whole.as_str());
            if all.len() > 0 {
                assert(all.deep_view()[0] == all[0]@);
                all[0].clone()
            } else {
                String::new()
            }
        },
        None => String::new(),
    }
}

/// What node `i` defines, if it defines something.
pub fn symbol_line(nodes: &Vec<SyntaxNode>, i: usize, text: &str) -> (r: Option<String>)
    requires
        i < nodes.len(),
    ensures
        r.deep_view() == symbol_record(nodes.deep_view(), i as int, text@),
{
    let ghost view = nodes.deep_view();
    assert(view[i as int] == nodes[i as int].deep_view());
    match category_for(nodes[i].kind.as_str()) {
        Some(category) => {
            let name = find_symbol_name(nodes, i, text);
            let start: u128 = nodes[i].start_row as u128 + 1;
            let end: u128 = nodes[i].end_row as u128 + 1;
            let mut label = owned(category);
            label.append(compact(name.as_str()).as_str());
            let mut line = make_record(start, " symbol | ", label.as_str());
            if start != end {
                line.append(" range=L");
                push_decimal(&mut line, start);
                line.append("-L");
                push_decimal(&mut line, end);
            }
            Some(line)
        },
        None => None,
    }
}

/// What the nodes of a tree define, in order.
pub fn collect_symbols(nodes: &Vec<SyntaxNode>, text: &str) -> (r: Vec<String>)
    ensures
        r.deep_view() == symbol_records(nodes.deep_view(), nodes.len() as nat, text@),
{
    let ghost view = nodes.deep_view();
    let mut output: Vec<String> = Vec::new();
    let mut i: usize = 0;
    assert(output.deep_view() =~= Seq::<Seq<char>>::empty());
    while i < nodes.len()
        invariant
            i <= nodes.len(),
            output.deep_view() == symbol_records(view, i as nat, text@),
        decreases nodes.len() - i,
    {
        if let Some(line) = symbol_line(nodes, i, text) {
            push_item(&mut output, line);
        }
        i += 1;
    }
    output
}

/// The grammar for a file of code with the given name.
pub open spec fn outline_grammar(name: Seq<char>) -> Option<Grammar> {
    match lower_extension(name) {
        Some(e) => if e == "rs"@ {
            Some(Grammar::Rust)
        } else if e == "py"@ {
            Some(Grammar::Python)
        } else if e == "c"@ || e == "h"@ {
            Some(Grammar::C)
        } else if e == "cc"@ || e == "cpp"@ || e == "hpp"@ {
            Some(Grammar::Cpp)
        } else if e == "gd"@ {
            Some(Grammar::GDScript)
        } else {
            None
        },
        None => None,
    }
}

fn find_grammar(name: &str) -> (r: Option<Grammar>)
    ensures
        r == outline_grammar(name@),
{
    match lowercase_extension(name) {
        Some(extension) => {
            let e = extension.as_str();
            if same(e, "rs") {
                Some(Grammar::Rust)
            } else if same(e, "py") {
                Some(Grammar::Python)
            } else if same(e, "c") || same(e, "h") {
                Some(Grammar::C)
            } else if same(e, "cc") || same(e, "cpp") || same(e, "hpp") {
                Some(Grammar::Cpp)
            } else if same(e, "gd") {
                Some(Grammar::GDScript)
            } else {
                None
            }
        },
        None => None,
    }
}

/// The outline of a text of code, given the nodes of its tree where it has
/// one; else going by how the lines start.
pub open spec fn outline_with(nodes: Option<Seq<NodeView>>, text: Seq<char>) -> Seq<Seq<char>> {
    match nodes {
        Some(nodes) => symbol_records(nodes, nodes.len(), text),
        None => summary_records(LineSummary::Outline, lines_of(text)),
    }
}

/// The nodes of the tree of a file of code.
pub open spec fn outline_nodes(name: Seq<char>, text: Seq<char>) -> Option<Seq<NodeView>> {
    match outline_grammar(name) {
        Some(grammar) => parsed_nodes(grammar, text),
        None => None,
    }
}

/// The outline of a text of code, given the nodes of its tree where it has
/// one.
pub fn outline_from(nodes: &Option<Vec<SyntaxNode>>, text: &str) -> (r: Vec<String>)
    ensures
        r.deep_view() == outline_with(nodes.deep_view(), text@),
{
    match nodes {
        Some(nodes) => collect_symbols(nodes, text),
        None => regex_outline(text),
    }
}

/// The outline of a file of code.
pub fn code_outline(name: &str, text: &str) -> (r: Vec<String>)
    ensures
        r.deep_view() == outline_with(outline_nodes(name@, text@), text@),
{
    let nodes = match find_grammar(name) {
        Some(grammar) => parse_nodes(grammar, text),
        None => None,
    };
    outline_from(&nodes, text)
}

// Inspections.

/// The line before everything but a full text.
pub open spec fn range_hint() -> Seq<char> {
    "hint=use slice/read_lines for exact ranges"@
}

/// The lines of the body for code that is not shown in full.
pub open spec fn code_body(lines: Seq<Seq<char>>, outline: Seq<Seq<char>>) -> Seq<Seq<char>> {
    let advice = if lines.len() > 500 {
        seq!["advice=large_code_prefer_split_modules"@]
    } else {
        Seq::empty()
    };
    seq![range_hint()] + advice + if outline.len() == 0 {
        preview_of(lines)
    } else {
        outline
    }
}

/// The lines of the body, given the outline for code.
pub open spec fn body_lines(
    kind: FileKind,
    rendering: Rendering,
    lines: Seq<Seq<char>>,
    outline: Seq<Seq<char>>,
) -> Seq<Seq<char>> {
    if rendering is Full {
        numbered(lines)
    } else {
        match kind {
            FileKind::Code => code_body(lines, outline),
            FileKind::Config => seq![range_hint()] + first_n(
                summary_records(LineSummary::Config, lines),
                200,
            ),
            FileKind::Lockfile => seq![range_hint()] + first_n(
                summary_records(LineSummary::Config, lines),
                200,
            ),
            FileKind::Markdown => seq![range_hint()] + markdown_records(lines).0,
            FileKind::Text => seq![range_hint()] + preview_of(lines),
            FileKind::Unknown => seq![range_hint()] + preview_of(lines),
        }
    }
}

/// The inspection of a text, given its outline for code.
pub open spec fn inspection_with(
    path: Seq<char>,
    name: Seq<char>,
    bytes: u64,
    text: Seq<char>,
    outline: Seq<Seq<char>>,
) -> InspectionView {
    let lines = lines_of(text);
    let kind = kind_of(name, lines);
    let rendering = rendering_of(kind, bytes, lines.len());
    InspectionView {
        file_path: path,
        file_kind: kind.word(),
        render: rendering.word(),
        bytes,
        lines: lines.len(),
        body: joined(body_lines(kind, rendering, lines, outline), "\n"@),
    }
}

/// The inspection of the text of a file with the given name.
pub open spec fn inspection_of(
    path: Seq<char>,
    name: Seq<char>,
    bytes: u64,
    text: Seq<char>,
) -> InspectionView {
    inspection_with(path, name, bytes, text, outline_with(outline_nodes(name, text), text))
}

fn extend_texts(list: &mut Vec<String>, more: Vec<String>)
    ensures
        final(list).deep_view() == old(list).deep_view() + more.deep_view(),
{
    let ghost a = list.deep_view();
    let mut more = more;
    let ghost b = more.deep_view();
    list.append(&mut more);
    assert(list.deep_view() =~= a + b);
}

fn hinted() -> (r: Vec<String>)
    ensures
        r.deep_view() == seq![range_hint()],
{
    let mut body: Vec<String> = Vec::new();
    push_item(&mut body, owned("hint=use slice/read_lines for exact ranges"));
    assert(body.deep_view() =~= seq![range_hint()]);
    body
}

fn rendering_for(kind: FileKind, bytes: u64, lines: usize) -> (r: Rendering)
    ensures
        r == rendering_of(kind, bytes, lines as nat),
{
    if is_small_file(kind, bytes, lines) {
        Rendering::Full
    } else {
        match kind {
            FileKind::Code => Rendering::Outline,
            FileKind::Unknown => Rendering::Preview,
            _ => Rendering::Summary,
        }
    }
}

fn make_body(kind: FileKind, rendering: Rendering, all: &Vec<String>, outline: Vec<String>) -> (r:
    Vec<String>)
    ensures
        r.deep_view() == body_lines(kind, rendering, all.deep_view(), outline.deep_view()),
{
    if matches!(rendering, Rendering::Full) {
        return number_lines(all);
    }
    let mut body = hinted();
    match kind {
        FileKind::Code => {
            if all.len() > 500 {
                push_item(&mut body, owned("advice=large_code_prefer_split_modules"));
            }
            if outline.len() == 0 {
                extend_texts(&mut body, non_empty_preview(all));
            } else {
                extend_texts(&mut body, outline);
            }
            assert(body.deep_view() =~= code_body(all.deep_view(), outline.deep_view()));
        },
        FileKind::Config | FileKind::Lockfile => {
            extend_texts(&mut body, config_summary(all));
        },
        FileKind::Markdown => {
            extend_texts(&mut body, markdown_summary(all));
        },
        FileKind::Text | FileKind::Unknown => {
            extend_texts(&mut body, non_empty_preview(all));
        },
    }
    body
}

/// The inspection of a text, given the nodes of its tree where it is code
/// and has one.
pub fn inspect_text_with(
    path: &str,
    name: &str,
    bytes: u64,
    text: &str,
    nodes: &Option<Vec<SyntaxNode>>,
) -> (r: FileInspection)
    ensures
        r.deep_view() == inspection_with(
            path@,
            name@,
            bytes,
            text@,
            outline_with(nodes.deep_view(), text@),
        ),
{
    let all = lines(text);
    let kind = FileKind::from_name_and_text(name, &all);
    let rendering = rendering_for(kind, bytes, all.len());
    let body = make_body(kind, rendering, &all, outline_from(nodes, text));
    FileInspection {
        file_path: owned(path),
        file_kind: kind.as_str(),
        render: rendering.as_str(),
        bytes,
        lines: all.len(),
        body: join(&body, "\n"),
    }
}

/// The inspection of the text of a file with the given name. Only code that
/// is not shown in full is parsed.
pub fn inspect_text(path: &str, name: &str, bytes: u64, text: &str) -> (r: FileInspection)
    ensures
        r.deep_view() == inspection_of(path@, name@, bytes, text@),
{
    let all = lines(text);
    let kind = FileKind::from_name_and_text(name, &all);
    let rendering = rendering_for(kind, bytes, all.len());
    let outline: Vec<String> = if matches!(rendering, Rendering::Outline) {
        code_outline(name, text)
    } else {
        Vec::new()
    };
    let body = make_body(kind, rendering, &all, outline);
    FileInspection {
        file_path: owned(path),
        file_kind: kind.as_str(),
        render: rendering.as_str(),
        bytes,
        lines: all.len(),
        body: join(&body, "\n"),
    }
}

/// Why a file cannot be inspected.
#[derive(Debug, Clone, PartialEq, Eq)]
pub enum InspectError {
    NotAFile { path: String },
    Binary { path: String },
    /// The bytes are not valid UTF-8; the message says where.
    NotUtf8 { message: String },
}

impl InspectError {
    /// The failure in words.
    pub fn to_error(&self) -> (r: BackendError)
        ensures
            match self {
                InspectError::NotAFile { path } => r.deep_view() == "not a file: "@ + path@,
                InspectError::Binary { path } => r.deep_view() == "binary file: "@ + path@,
                InspectError::NotUtf8 { message } => r.deep_view() == message@,
            },
    {
        match self {
            InspectError::NotAFile { path } => {
                let mut message = owned("not a file: ");
                message.append(path.as_str());
                BackendError { message }
            },
            InspectError::Binary { path } => {
                let mut message = owned("binary file: ");
                message.append(path.as_str());
                BackendError { message }
            },
            InspectError::NotUtf8 { message } => BackendError { message: message.clone() },
        }
    }
}

/// What the inspection of a file with the given name, metadata and contents
/// gives: an error for what is no file, holds a zero byte or is not UTF-8.
pub open spec fn inspection_result(
    path: Seq<char>,
    name: Seq<char>,
    is_file: bool,
    len: u64,
    bytes: Seq<u8>,
    r: Result<FileInspection, InspectError>,
) -> bool {
    if !is_file {
        r matches Err(InspectError::NotAFile { path: p }) && p@ == path
    } else if bytes.contains(0u8) {
        r matches Err(InspectError::Binary { path: p }) && p@ == path
    } else {
        match decoded(bytes) {
            Some(text) => r matches Ok(inspection) && inspection.deep_view() == inspection_of(
                path,
                name,
                len,
                text,
            ),
            None => r matches Err(InspectError::NotUtf8 { .. }),
        }
    }
}

/// Inspects a file with the given name, metadata and contents.
pub fn inspect_named_file(path: &str, name: &str, is_file: bool, len: u64, bytes: Vec<u8>) -> (r:
    Result<FileInspection, InspectError>)
    ensures
        inspection_result(path@, name@, is_file, len, bytes@, r),
{
    if !is_file {
        return Err(InspectError::NotAFile { path: owned(path) });
    }
    if has_zero(bytes.as_slice()) {
        return Err(InspectError::Binary { path: owned(path) });
    }
    match from_utf8(bytes) {
        Ok(text) => Ok(inspect_text(path, name, len, text.as_str())),
        Err(message) => Err(InspectError::NotUtf8 { message }),
    }
}

/// Inspects the file at `path` with the given metadata and contents. Its name
/// is what the host sees in the path.
pub fn inspect_file_structured(path: &str, is_file: bool, len: u64, bytes: Vec<u8>) -> (r: Result<
    FileInspection,
    InspectError,
>)
    ensures
        exists|name: Seq<char>| #[trigger]
            inspection_result(path@, name, is_file, len, bytes@, r) && names(path@, name),
{
    let name = name_of(path);
    inspect_named_file(path, name.as_str(), is_file, len, bytes)
}

/// The lines before the body.
pub open spec fn header_of(view: InspectionView) -> Seq<Seq<char>> {
    seq![
        "file_path="@ + view.file_path,
        "file_kind="@ + view.file_kind,
        "render="@ + view.render,
        "bytes="@ + decimal(view.bytes as nat) + " lines="@ + decimal(view.lines)
            + " line_numbers=original"@,
        "line_format=source:L<n>| summary:L<n> <type>|"@,
    ]
}

/// The header and, after an empty line, the body.
pub open spec fn rendered(view: InspectionView) -> Seq<char> {
    let lines = if view.body.len() == 0 {
        header_of(view)
    } else {
        header_of(view).push(Seq::empty()).push(view.body)
    };
    joined(lines, "\n"@)
}

impl FileInspection {
    /// The lines before the body.
    pub fn header_lines(&self) -> (r: Vec<String>)
        ensures
            r.deep_view() == header_of(self.deep_view()),
    {
        let mut output: Vec<String> = Vec::new();
        let mut line = owned("file_path=");
        line.append(self.file_path.as_str());
        push_item(&mut output, line);
        let mut line = owned("file_kind=");
        line.append(self.file_kind);
        push_item(&mut output, line);
        let mut line = owned("render=");
        line.append(self.render);
        push_item(&mut output, line);
        let mut line = owned("bytes=");
        push_decimal(&mut line, self.bytes as u128);
        line.append(" lines=");
        push_decimal(&mut line, self.lines as u128);
        line.append(" line_numbers=original");
        push_item(&mut output, line);
        push_item(&mut output, owned("line_format=source:L<n>| summary:L<n> <type>|"));
        assert(output.deep_view() =~= header_of(self.deep_view()));
        output
    }

    /// The header and the body as one text.
    pub fn render(&self) -> (r: String)
        ensures
            r@ == rendered(self.deep_view()),
    {
        let mut output = self.header_lines();
        if self.body.as_str().unicode_len() > 0 {
            push_item(&mut output, String::new());
            push_item(&mut output, self.body.clone());
            assert(output.deep_view() =~= header_of(self.deep_view()).push(Seq::empty()).push(
                self.body@,
            ));
        }
        join(&output, "\n")
    }
}

/// Inspects the file at `path` and gives the inspection as one text.
pub fn inspect_file(path: &str, is_file: bool, len: u64, bytes: Vec<u8>) -> (r: Result<
    String,
    InspectError,
>)
    ensures
        exists|name: Seq<char>, inner: Result<FileInspection, InspectError>| #[trigger]
            inspection_result(path@, name, is_file, len, bytes@, inner) && names(path@, name)
                && match inner {
                Ok(inspection) => r matches Ok(text) && text@ == rendered(inspection.deep_view()),
                Err(error) => r == Err::<String, InspectError>(error),
            },
{
    let name = name_of(path);
    let inner = inspect_named_file(path, name.as_str(), is_file, len, bytes);
    assert(inspection_result(path@, name@, is_file, len, bytes@, inner));
    match inner {
        Ok(inspection) => Ok(inspection.render()),
        Err(error) => Err(error),
    }
}

/// A file is shown in full exactly where it is small, and the body has then
/// one line for each line of the file, in order, with its number.
pub proof fn law_full_body_is_the_file(
    path: Seq<char>,
    name: Seq<char>,
    bytes: u64,
    text: Seq<char>,
)
    ensures
        ({
            let lines = lines_of(text);
            let kind = kind_of(name, lines);
            small(kind, bytes, lines.len()) ==> {
                let view = inspection_of(path, name, bytes, text);
                &&& view.render == "full"@
                &&& view.body == joined(numbered(lines), "\n"@)
                &&& numbered(lines).len() == lines.len()
                &&& forall|i: int|
                    0 <= i < lines.len() ==> #[trigger] numbered(lines)[i] == "L"@ + decimal(
                        (i + 1) as nat,
                    ) + " | "@ + lines[i]
            }
        }),
{
}

} // verus!
