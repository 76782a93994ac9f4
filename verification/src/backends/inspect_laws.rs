//! What holds of all inspected files: what an outline, a summary and a full
//! text show.
use super::inspect_file::{
    compacted, config_record, header_of, heading_record, inspection_of, kind_of, markdown_records,
    numbered, outline_nodes, outline_with, preview_of, rendered, small, summary_records,
    symbol_name, symbol_record, symbol_records, InspectionView, LineSummary,
};
use crate::bytes::text_between;
use crate::number::decimal;
use crate::split::{joined, lines_of, replaced};
use crate::syntax::{field_child, parsed_nodes, Grammar, NodeView};
use crate::text::{occurs_at, trimmed_start, CharClass};
use crate::text_laws::{law_tight, law_trim, tight};
use vstd::prelude::*;
use vstd::string::*;

verus! {

// Outlines.

/// Whether a node of a kind defines something of a sort.
pub open spec fn defines(kind: Seq<char>, sort: Seq<char>) -> bool {
    ||| sort == "function"@ && (kind == "function_item"@ || kind == "function_definition"@ || kind
        == "function_declaration"@ || kind == "method_definition"@ || kind
        == "function_declarator"@ || kind == "function_statement"@)
    ||| sort == "class"@ && (kind == "class_definition"@ || kind == "class_declaration"@)
    ||| sort == "struct"@ && (kind == "struct_item"@ || kind == "struct_specifier"@)
    ||| sort == "enum"@ && kind == "enum_item"@
    ||| sort == "interface"@ && kind == "interface_declaration"@
    ||| sort == "constant"@ && (kind == "const_item"@ || kind == "static_item"@)
    ||| sort == "variable"@ && (kind == "let_declaration"@ || kind == "assignment_statement"@)
}

#[verifier::rlimit(40)]
proof fn lemma_defines(kind: Seq<char>, sort: Seq<char>)
    requires
        defines(kind, sort),
    ensures
        super::inspect_file::symbol_category(kind) == Some(sort + seq![' ']),
{
    reveal_strlit("function_item");
    reveal_strlit("function_definition");
    reveal_strlit("function_declaration");
    reveal_strlit("method_definition");
    reveal_strlit("function_declarator");
    reveal_strlit("function_statement");
    reveal_strlit("class_definition");
    reveal_strlit("class_declaration");
    reveal_strlit("struct_item");
    reveal_strlit("struct_specifier");
    reveal_strlit("enum_item");
    reveal_strlit("interface_declaration");
    reveal_strlit("const_item");
    reveal_strlit("static_item");
    reveal_strlit("let_declaration");
    reveal_strlit("assignment_statement");
    reveal_strlit("function");
    reveal_strlit("class");
    reveal_strlit("struct");
    reveal_strlit("enum");
    reveal_strlit("interface");
    reveal_strlit("constant");
    reveal_strlit("variable");
    reveal_strlit("function ");
    reveal_strlit("class ");
    reveal_strlit("struct ");
    reveal_strlit("enum ");
    reveal_strlit("interface ");
    reveal_strlit("constant ");
    reveal_strlit("variable ");
    assert("function "@ =~= "function"@ + seq![' ']);
    assert("class "@ =~= "class"@ + seq![' ']);
    assert("struct "@ =~= "struct"@ + seq![' ']);
    assert("enum "@ =~= "enum"@ + seq![' ']);
    assert("interface "@ =~= "interface"@ + seq![' ']);
    assert("constant "@ =~= "constant"@ + seq![' ']);
    assert("variable "@ =~= "variable"@ + seq![' ']);
    lemma_first_letters();
}

proof fn lemma_first_letters()
    ensures
        "function_item"@[0] == 'f',
        "function_definition"@[0] == 'f',
        "function_declaration"@[0] == 'f',
        "method_definition"@[0] == 'm',
        "function_declarator"@[0] == 'f',
        "function_statement"@[0] == 'f',
        "class_definition"@[0] == 'c' && "class_definition"@[1] == 'l',
        "class_declaration"@[0] == 'c' && "class_declaration"@[1] == 'l',
        "struct_item"@[0] == 's' && "struct_item"@[2] == 'r',
        "struct_specifier"@[0] == 's' && "struct_specifier"@[2] == 'r',
        "enum_item"@[0] == 'e',
        "interface_declaration"@[0] == 'i',
        "const_item"@[0] == 'c' && "const_item"@[1] == 'o',
        "static_item"@[0] == 's' && "static_item"@[2] == 'a',
        "let_declaration"@[0] == 'l',
        "assignment_statement"@[0] == 'a',
        "function"@[0] == 'f',
        "class"@[0] == 'c' && "class"@[1] == 'l',
        "struct"@[0] == 's',
        "enum"@[0] == 'e',
        "interface"@[0] == 'i',
        "constant"@[0] == 'c' && "constant"@[1] == 'o',
        "variable"@[0] == 'v',
{
    reveal_strlit("function_item");
    reveal_strlit("function_definition");
    reveal_strlit("function_declaration");
    reveal_strlit("method_definition");
    reveal_strlit("function_declarator");
    reveal_strlit("function_statement");
    reveal_strlit("class_definition");
    reveal_strlit("class_declaration");
    reveal_strlit("struct_item");
    reveal_strlit("struct_specifier");
    reveal_strlit("enum_item");
    reveal_strlit("interface_declaration");
    reveal_strlit("const_item");
    reveal_strlit("static_item");
    reveal_strlit("let_declaration");
    reveal_strlit("assignment_statement");
    reveal_strlit("function");
    reveal_strlit("class");
    reveal_strlit("struct");
    reveal_strlit("enum");
    reveal_strlit("interface");
    reveal_strlit("constant");
    reveal_strlit("variable");
}

/// Whether node `j` is the first child of node `i` that names it.
pub open spec fn is_name_of(nodes: Seq<NodeView>, i: int, j: int) -> bool {
    &&& 0 <= i < j < nodes.len()
    &&& nodes[j].depth == nodes[i].depth + 1
    &&& nodes[j].field == Some("name"@)
    &&& forall|k: int|
        i < k < j ==> (#[trigger] nodes[k]).depth > nodes[i].depth && !(nodes[k].depth
            == nodes[i].depth + 1 && nodes[k].field == Some("name"@))
}

proof fn lemma_field_child(nodes: Seq<NodeView>, i: int, j: int, from: int)
    requires
        is_name_of(nodes, i, j),
        i < from <= j,
    ensures
        field_child(nodes, nodes[i].depth as int, from, "name"@) == Some(j),
    decreases j - from,
{
    if from < j {
        assert(nodes[from].depth > nodes[i].depth);
        lemma_field_child(nodes, i, j, from + 1);
    }
}

/// Whether a name is shown as it is: it is short, and holds no tabs and no
/// white space at its ends.
pub open spec fn short_name(name: Seq<char>) -> bool {
    name.len() <= 180 && tight(name) && !name.contains('\t')
}

proof fn lemma_no_tabs(s: Seq<char>)
    requires
        !s.contains('\t'),
    ensures
        replaced(s, "\t"@, " "@) == s,
    decreases s.len(),
{
    reveal_strlit("\t");
    if s.len() > 0 {
        assert(s.contains(s[0]));
        assert(!occurs_at(s, "\t"@, 0)) by {
            if occurs_at(s, "\t"@, 0) {
                assert(s.subrange(0, 1)[0] == "\t"@[0]);
            }
        }
        let rest = s.skip(1);
        assert(!rest.contains('\t')) by {
            if rest.contains('\t') {
                let i = rest.index_of('\t');
                assert(s[i + 1] == '\t');
            }
        }
        lemma_no_tabs(rest);
        assert(seq![s[0]] + rest =~= s);
    }
}

pub proof fn lemma_short_name(name: Seq<char>)
    requires
        short_name(name),
    ensures
        compacted(name) == name,
{
    law_tight(name);
    lemma_no_tabs(name);
}

/// What an outline says of something that is defined: its line, its sort and
/// its name, and its lines where it has more than one.
pub open spec fn symbol_line_of(first: nat, last: nat, sort: Seq<char>, name: Seq<char>) -> Seq<
    char,
> {
    let line = "L"@ + decimal(first) + " symbol | "@ + sort + seq![' '] + name;
    if first == last {
        line
    } else {
        line + " range=L"@ + decimal(first) + "-L"@ + decimal(last)
    }
}

/// The outline of a file has a record for every node of its tree that defines
/// a function, a class, a struct, an enum, an interface, a constant or a
/// variable, with its sort, its name and its lines.
pub proof fn law_outline_has_symbols(
    nodes: Seq<NodeView>,
    text: Seq<char>,
    i: int,
    j: int,
    sort: Seq<char>,
    name: Seq<char>,
)
    requires
        is_name_of(nodes, i, j),
        defines(nodes[i].kind, sort),
        text_between(text, nodes[j].start_byte as int, nodes[j].end_byte as int) == Some(name),
        short_name(name),
    ensures
        outline_with(Some(nodes), text).contains(
            symbol_line_of(
                (nodes[i].start_row + 1) as nat,
                (nodes[i].end_row + 1) as nat,
                sort,
                name,
            ),
        ),
{
    lemma_defines(nodes[i].kind, sort);
    lemma_field_child(nodes, i, j, i + 1);
    lemma_short_name(name);
    let first = (nodes[i].start_row + 1) as nat;
    let last = (nodes[i].end_row + 1) as nat;
    let shown = symbol_line_of(first, last, sort, name);
    assert(symbol_name(nodes, i, text) == name);
    let plain = "L"@ + decimal(first) + " symbol | "@ + sort + seq![' '] + name;
    assert(super::inspect_file::record(first, " symbol | "@, sort + seq![' '] + name) =~= plain);
    assert(symbol_record(nodes, i, text) == Some(shown));
    lemma_record_listed(nodes, nodes.len(), text, i);
}

proof fn lemma_record_listed(nodes: Seq<NodeView>, n: nat, text: Seq<char>, i: int)
    requires
        0 <= i < n,
        symbol_record(nodes, i, text) is Some,
    ensures
        symbol_records(nodes, n, text).contains(symbol_record(nodes, i, text)->0),
    decreases n,
{
    let all = symbol_records(nodes, n, text);
    let before = symbol_records(nodes, (n - 1) as nat, text);
    let line = symbol_record(nodes, i, text)->0;
    if i == n - 1 {
        assert(all[before.len() as int] == line);
    } else {
        lemma_record_listed(nodes, (n - 1) as nat, text, i);
        let k = before.index_of(line);
        assert(all[k] == line);
    }
}

/// Whether a node defines something.
pub open spec fn is_symbol(node: NodeView) -> bool {
    exists|sort: Seq<char>| #[trigger] defines(node.kind, sort)
}

/// How many of the first `n` nodes define something.
pub open spec fn symbol_count(nodes: Seq<NodeView>, n: nat) -> nat
    decreases n,
{
    if n == 0 {
        0
    } else {
        symbol_count(nodes, (n - 1) as nat) + if is_symbol(nodes[n - 1]) {
            1nat
        } else {
            0nat
        }
    }
}

/// The outline of a file has one record for each node that defines something,
/// and no others.
pub proof fn law_outline_has_nothing_else(nodes: Seq<NodeView>, text: Seq<char>)
    ensures
        outline_with(Some(nodes), text).len() == symbol_count(nodes, nodes.len()),
{
    lemma_symbol_count(nodes, nodes.len(), text);
}

proof fn lemma_symbol_count(nodes: Seq<NodeView>, n: nat, text: Seq<char>)
    requires
        n <= nodes.len(),
    ensures
        symbol_records(nodes, n, text).len() == symbol_count(nodes, n),
    decreases n,
{
    if n > 0 {
        lemma_symbol_count(nodes, (n - 1) as nat, text);
        let kind = nodes[n - 1].kind;
        if is_symbol(nodes[n - 1]) {
            let sort = choose|sort: Seq<char>| #[trigger] defines(kind, sort);
            lemma_defines(kind, sort);
        } else {
            assert(!defines(kind, "function"@));
            assert(!defines(kind, "class"@));
            assert(!defines(kind, "struct"@));
            assert(!defines(kind, "enum"@));
            assert(!defines(kind, "interface"@));
            assert(!defines(kind, "constant"@));
            assert(!defines(kind, "variable"@));
        }
    }
}

// How a file is shown.

/// Code is shown in full up to twelve kilobytes and three hundred lines;
/// configuration, lock files and Markdown up to sixty-four kilobytes and two
/// thousand lines; other texts up to sixteen kilobytes and four hundred
/// lines. What is larger is shown as an outline, a summary or a preview.
pub proof fn law_sizes(path: Seq<char>, name: Seq<char>, bytes: u64, text: Seq<char>)
    ensures
        ({
            let n = lines_of(text).len();
            let kind = kind_of(name, lines_of(text));
            let view = inspection_of(path, name, bytes, text);
            &&& view.file_path == path
            &&& view.bytes == bytes
            &&& view.lines == n
            &&& kind is Code ==> view.file_kind == "code"@ && view.render == if bytes <= 12288 && n
                <= 300 {
                "full"@
            } else {
                "outline"@
            }
            &&& kind is Config ==> view.file_kind == "config"@ && view.render == if bytes <= 65536
                && n <= 2000 {
                "full"@
            } else {
                "summary"@
            }
            &&& kind is Lockfile ==> view.file_kind == "lockfile"@ && view.render == if bytes
                <= 65536 && n <= 2000 {
                "full"@
            } else {
                "summary"@
            }
            &&& kind is Markdown ==> view.file_kind == "markdown"@ && view.render == if bytes
                <= 65536 && n <= 2000 {
                "full"@
            } else {
                "summary"@
            }
            &&& kind is Text ==> view.file_kind == "text"@ && view.render == if bytes <= 16384 && n
                <= 400 {
                "full"@
            } else {
                "summary"@
            }
            &&& kind is Unknown ==> view.file_kind == "unknown"@ && view.render == if bytes
                <= 16384 && n <= 400 {
                "full"@
            } else {
                "preview"@
            }
        }),
{
}

/// A large file of code is shown as a hint, advice where it has more than
/// five hundred lines, and its outline, or its first lines where there is no
/// outline.
pub proof fn law_large_code(path: Seq<char>, name: Seq<char>, bytes: u64, text: Seq<char>)
    requires
        kind_of(name, lines_of(text)) is Code,
        bytes > 12288 || lines_of(text).len() > 300,
    ensures
        ({
            let outline = outline_with(outline_nodes(name, text), text);
            let hint = seq!["hint=use slice/read_lines for exact ranges"@];
            let advice = seq!["advice=large_code_prefer_split_modules"@];
            inspection_of(path, name, bytes, text).body == joined(
                hint + (if lines_of(text).len() > 500 {
                    advice
                } else {
                    Seq::empty()
                }) + (if outline.len() > 0 {
                    outline
                } else {
                    preview_of(lines_of(text))
                }),
                seq!['\n'],
            )
        }),
{
    reveal_strlit("\n");
    assert("\n"@ =~= seq!['\n']);
}

/// A small file is shown line by line, each with its number.
pub proof fn law_full_text(path: Seq<char>, name: Seq<char>, bytes: u64, text: Seq<char>, i: int)
    requires
        small(kind_of(name, lines_of(text)), bytes, lines_of(text).len()),
        0 <= i < lines_of(text).len(),
    ensures
        inspection_of(path, name, bytes, text).body == joined(
            numbered(lines_of(text)),
            seq!['\n'],
        ),
        numbered(lines_of(text)).len() == lines_of(text).len(),
        numbered(lines_of(text))[i] == seq!['L'] + decimal((i + 1) as nat) + seq![' ', '|', ' ']
            + lines_of(text)[i],
{
    reveal_strlit("\n");
    reveal_strlit("L");
    reveal_strlit(" | ");
    assert("\n"@ =~= seq!['\n']);
    assert("L"@ =~= seq!['L']);
    assert(" | "@ =~= seq![' ', '|', ' ']);
}

/// The kind of a file goes by its extension.
#[verifier::rlimit(40)]
pub proof fn law_kinds(stem: Seq<char>, ext: Seq<char>, lines: Seq<Seq<char>>)
    requires
        stem.len() > 0,
        !ext.contains('.'),
        crate::case::ascii_lowercase(stem + seq!['.'] + ext) == stem + seq!['.'] + ext,
        !super::inspect_file::lockfile_name(stem + seq!['.'] + ext),
        !super::inspect_file::config_name(stem + seq!['.'] + ext),
        crate::case::ascii_lowercase(ext) == ext,
    ensures
        ext == "rs"@ || ext == "py"@ || ext == "c"@ || ext == "cc"@ || ext == "cpp"@ || ext == "h"@
            || ext == "hpp"@ || ext == "gd"@ ==> kind_of(stem + seq!['.'] + ext, lines) is Code,
        ext == "json"@ || ext == "toml"@ || ext == "yaml"@ || ext == "yml"@ || ext == "tres"@ || ext
            == "cfg"@ || ext == "ini"@ ==> kind_of(stem + seq!['.'] + ext, lines) is Config,
        ext == "md"@ || ext == "mdx"@ || ext == "txt"@ ==> kind_of(
            stem + seq!['.'] + ext,
            lines,
        ) is Markdown,
        ext == "rs"@ ==> outline_nodes(stem + seq!['.'] + ext, joined(lines, seq!['\n']))
            == parsed_nodes(Grammar::Rust, joined(lines, seq!['\n'])),
{
    let name = stem + seq!['.'] + ext;
    crate::record_laws::lemma_after_dot(stem, ext);
    reveal_strlit("rs");
    reveal_strlit("py");
    reveal_strlit("c");
    reveal_strlit("cc");
    reveal_strlit("cpp");
    reveal_strlit("h");
    reveal_strlit("hpp");
    reveal_strlit("gd");
    reveal_strlit("json");
    reveal_strlit("toml");
    reveal_strlit("yaml");
    reveal_strlit("yml");
    reveal_strlit("tres");
    reveal_strlit("cfg");
    reveal_strlit("ini");
    reveal_strlit("md");
    reveal_strlit("mdx");
    reveal_strlit("txt");
    assert("rs"@[0] == 'r' && "py"@[0] == 'p' && "cc"@[0] == 'c' && "gd"@[0] == 'g' && "md"@[0]
        == 'm');
    assert("cpp"@[0] == 'c' && "cpp"@[1] == 'p' && "hpp"@[0] == 'h' && "yml"@[0] == 'y' && "cfg"@[1]
        == 'f' && "cfg"@[0] == 'c' && "ini"@[0] == 'i' && "mdx"@[0] == 'm' && "txt"@[0] == 't');
    assert("json"@[0] == 'j' && "toml"@[0] == 't' && "toml"@[1] == 'o' && "yaml"@[0] == 'y'
        && "tres"@[0] == 't' && "tres"@[1] == 'r');
    assert("c"@[0] == 'c' && "h"@[0] == 'h');
}

// Summaries.

proof fn lemma_summary_holds(summary: LineSummary, lines: Seq<Seq<char>>, i: int)
    requires
        0 <= i < lines.len(),
        summary.record(lines[i], (i + 1) as nat) is Some,
    ensures
        summary_records(summary, lines).contains(summary.record(lines[i], (i + 1) as nat)->0),
    decreases lines.len(),
{
    let all = summary_records(summary, lines);
    let before = summary_records(summary, lines.drop_last());
    let line = summary.record(lines[i], (i + 1) as nat)->0;
    if i == lines.len() - 1 {
        assert(all[before.len() as int] == line);
    } else {
        assert(lines.drop_last()[i] == lines[i]);
        lemma_summary_holds(summary, lines.drop_last(), i);
        let k = before.index_of(line);
        assert(all[k] == line);
    }
}

/// Whether a text can be a key: it holds no equals signs, colons and quotes,
/// no white space at its ends, and does not read as a comment or a section.
pub open spec fn is_key(key: Seq<char>) -> bool {
    &&& key.len() > 0
    &&& tight(key)
    &&& key[0] != '#' && key[0] != '/' && key[0] != '['
    &&& forall|i: int|
        0 <= i < key.len() ==> #[trigger] key[i] != '=' && key[i] != ':' && key[i] != '"'
}

/// The summary of a configuration file has a record for every line that sets
/// a key, with its number and the key, and for every line that starts a
/// section.
pub proof fn law_config_summary(
    lines: Seq<Seq<char>>,
    i: int,
    key: Seq<char>,
    value: Seq<char>,
    title: Seq<char>,
)
    requires
        0 <= i < lines.len(),
        is_key(key),
        tight(key + seq!['='] + value),
        tight(key + seq![':'] + value),
    ensures
        lines[i] == key + seq!['='] + value || lines[i] == key + seq![':'] + value
            ==> summary_records(LineSummary::Config, lines).contains(
            "L"@ + decimal((i + 1) as nat) + " key | "@ + key,
        ),
        lines[i] == seq!['['] + title + seq![']'] ==> summary_records(
            LineSummary::Config,
            lines,
        ).contains("L"@ + decimal((i + 1) as nat) + " section | "@ + lines[i]),
{
    let number = (i + 1) as nat;
    if lines[i] == key + seq!['='] + value {
        lemma_key_line(key, '=', value, number);
        lemma_summary_holds(LineSummary::Config, lines, i);
    }
    if lines[i] == key + seq![':'] + value {
        lemma_key_line(key, ':', value, number);
        lemma_summary_holds(LineSummary::Config, lines, i);
    }
    if lines[i] == seq!['['] + title + seq![']'] {
        law_tight(lines[i]);
        lemma_summary_holds(LineSummary::Config, lines, i);
    }
}

proof fn lemma_key_line(key: Seq<char>, sign: char, value: Seq<char>, number: nat)
    requires
        is_key(key),
        sign == '=' || sign == ':',
        tight(key + seq![sign] + value),
    ensures
        config_record(key + seq![sign] + value, number) == Some(
            "L"@ + decimal(number) + " key | "@ + key,
        ),
{
    let line = key + seq![sign] + value;
    law_tight(line);
    reveal_strlit("//");
    assert(line[0] == key[0]);
    assert(line[key.len() as int] == sign);
    assert(line.contains(sign));
    assert(!crate::text::has_prefix(line, "//"@)) by {
        if crate::text::has_prefix(line, "//"@) {
            assert(line.subrange(0, 2)[0] == '/');
        }
    }
    lemma_key_end(key, sign, value);
    assert(line.take(key.len() as int) =~= key);
    let quote = CharClass::Only('"');
    crate::text::lemma_leading(key, quote, 0);
    assert(trimmed_start(key, quote) =~= key);
    crate::text::lemma_trailing(key, quote, 0);
    assert(crate::text::trimmed_end(key, quote) =~= key);
    law_tight(key);
}

proof fn lemma_key_end(key: Seq<char>, sign: char, value: Seq<char>)
    requires
        forall|i: int| 0 <= i < key.len() ==> #[trigger] key[i] != '=' && key[i] != ':',
        sign == '=' || sign == ':',
    ensures
        super::inspect_file::key_len(key + seq![sign] + value) == key.len(),
    decreases key.len(),
{
    let line = key + seq![sign] + value;
    if key.len() > 0 {
        assert(line[0] == key[0]);
        assert(line.skip(1) =~= key.skip(1) + seq![sign] + value);
        assert forall|i: int| 0 <= i < key.skip(1).len() implies #[trigger] key.skip(1)[i] != '='
            && key.skip(1)[i] != ':' by {
            assert(key.skip(1)[i] == key[i + 1]);
        }
        lemma_key_end(key.skip(1), sign, value);
    }
}

/// A row of hash signs.
pub open spec fn hashes(n: nat) -> Seq<char> {
    Seq::new(n, |i: int| '#')
}

/// The summary of a Markdown file has a record for every heading, with its
/// line, its level and its title.
pub proof fn law_headings(lines: Seq<Seq<char>>, i: int, level: nat, title: Seq<char>)
    requires
        0 <= i < lines.len(),
        level > 0,
        tight(title),
        lines[i] == hashes(level) + seq![' '] + title,
    ensures
        markdown_records(lines).0.contains(
            "L"@ + decimal((i + 1) as nat) + " heading | h"@ + decimal(level) + " "@ + title,
        ),
    decreases lines.len(),
{
    let all = markdown_records(lines).0;
    let before = markdown_records(lines.drop_last()).0;
    let shown = "L"@ + decimal((i + 1) as nat) + " heading | h"@ + decimal(level) + " "@ + title;
    if i == lines.len() - 1 {
        let line = lines[i];
        assert(line[0] == '#');
        crate::text::lemma_leading(line, CharClass::Space, 0);
        assert(trimmed_start(line, CharClass::Space) =~= line);
        assert(line[level as int] == ' ');
        crate::text::lemma_leading(line, CharClass::Only('#'), level);
        let rest = line.skip(level as int);
        let e = Seq::<char>::empty();
        assert(rest =~= seq![' '] + title + e);
        law_trim(seq![' '], title, e);
        assert(heading_record(line, (i + 1) as nat) == shown);
        assert(all.last() == shown);
        assert(all[all.len() - 1] == shown);
    } else {
        assert(lines.drop_last()[i] == lines[i]);
        law_headings(lines.drop_last(), i, level, title);
        let k = before.index_of(shown);
        assert(all[k] == shown);
    }
}

/// A fenced block of a Markdown file is shown with its first and its last
/// line and its language, once it is closed.
#[verifier::rlimit(40)]
pub proof fn law_fences(
    lines: Seq<Seq<char>>,
    language: Seq<char>,
    inside: Seq<Seq<char>>,
)
    requires
        markdown_records(lines).1 is None,
        tight(language),
        language.len() > 0 && language[0] != '`',
        forall|i: int|
            0 <= i < inside.len() ==> !crate::text::has_prefix(
                trimmed_start(#[trigger] inside[i], CharClass::Space),
                seq!['`', '`', '`'],
            ),
    ensures
        ({
            let fence = seq!['`', '`', '`'];
            let first = lines.len() + 1;
            let last = lines.len() + inside.len() + 2;
            let all = lines + seq![fence + language] + inside + seq![fence];
            &&& markdown_records(all).1 is None
            &&& markdown_records(all).0.contains(
                "L"@ + decimal(first) + " fence | range=L"@ + decimal(first) + "-L"@ + decimal(last)
                    + " lang="@ + language,
            )
        }),
{
    reveal_strlit("```");
    let fence = seq!['`', '`', '`'];
    assert("```"@ =~= fence);
    let first = lines.len() + 1;
    let last = lines.len() + inside.len() + 2;
    let opening = fence + language;
    let open = lines + seq![opening];
    assert(open.drop_last() =~= lines);
    assert(opening[0] == '`');
    crate::text::lemma_leading(opening, CharClass::Space, 0);
    assert(trimmed_start(opening, CharClass::Space) =~= opening);
    crate::text_laws::law_ends(fence, language);
    lemma_without_fence(language);
    law_tight(language);
    assert(markdown_records(open).1 == Some((first, language)));
    lemma_inside_fence(open, inside, first, language);
    let body = open + inside;
    let all = lines + seq![opening] + inside + seq![fence];
    assert(all.drop_last() =~= body);
    crate::text::lemma_leading(fence, CharClass::Space, 0);
    assert(trimmed_start(fence, CharClass::Space) =~= fence);
    assert(fence.subrange(0, 3) =~= fence);
    let shown = "L"@ + decimal(first) + " fence | range=L"@ + decimal(first) + "-L"@ + decimal(last)
        + " lang="@ + language;
    assert(super::inspect_file::fence_record(first, last, language) =~= shown);
    let records = markdown_records(all).0;
    assert(records[records.len() - 1] == shown);
}

proof fn lemma_without_fence(language: Seq<char>)
    requires
        language.len() > 0 && language[0] != '`',
    ensures
        crate::text::without_prefixes(seq!['`', '`', '`'] + language, "```"@) == language,
{
    reveal_strlit("```");
    let s = seq!['`', '`', '`'] + language;
    assert("```"@ =~= seq!['`', '`', '`']);
    crate::text_laws::law_ends(seq!['`', '`', '`'], language);
    assert(s.skip(3) =~= language);
    assert(!crate::text::has_prefix(language, "```"@)) by {
        if crate::text::has_prefix(language, "```"@) {
            assert(language.subrange(0, 3)[0] == language[0]);
        }
    }
    reveal_with_fuel(crate::text::without_prefixes, 3);
}

proof fn lemma_inside_fence(
    open: Seq<Seq<char>>,
    inside: Seq<Seq<char>>,
    first: nat,
    language: Seq<char>,
)
    requires
        markdown_records(open).1 == Some((first, language)),
        forall|i: int|
            0 <= i < inside.len() ==> !crate::text::has_prefix(
                trimmed_start(#[trigger] inside[i], CharClass::Space),
                seq!['`', '`', '`'],
            ),
    ensures
        markdown_records(open + inside).1 == Some((first, language)),
    decreases inside.len(),
{
    reveal_strlit("```");
    assert("```"@ =~= seq!['`', '`', '`']);
    if inside.len() == 0 {
        assert(open + inside =~= open);
    } else {
        let fewer = inside.drop_last();
        assert forall|i: int| 0 <= i < fewer.len() implies !crate::text::has_prefix(
            trimmed_start(#[trigger] fewer[i], CharClass::Space),
            seq!['`', '`', '`'],
        ) by {
            assert(fewer[i] == inside[i]);
        }
        lemma_inside_fence(open, fewer, first, language);
        assert((open + inside).drop_last() =~= open + fewer);
        assert((open + inside).last() == inside[inside.len() - 1]);
    }
}

/// Code without a grammar is outlined line by line: a line that starts with a
/// word that defines something is shown with its number and its sort.
#[verifier::rlimit(40)]
pub proof fn law_outline_of_lines(lines: Seq<Seq<char>>, i: int, rest: Seq<char>)
    requires
        0 <= i < lines.len(),
        short_name("fn "@ + rest),
        short_name("def "@ + rest),
        short_name("class "@ + rest),
        short_name("struct "@ + rest),
        short_name("const "@ + rest),
        !crate::text::has_text(lines[i], " function "@),
    ensures
        lines[i] == "fn "@ + rest ==> summary_records(LineSummary::Outline, lines).contains(
            "L"@ + decimal((i + 1) as nat) + " symbol | function "@ + lines[i],
        ),
        lines[i] == "def "@ + rest ==> summary_records(LineSummary::Outline, lines).contains(
            "L"@ + decimal((i + 1) as nat) + " symbol | function "@ + lines[i],
        ),
        lines[i] == "class "@ + rest ==> summary_records(LineSummary::Outline, lines).contains(
            "L"@ + decimal((i + 1) as nat) + " symbol | class "@ + lines[i],
        ),
        lines[i] == "struct "@ + rest ==> summary_records(LineSummary::Outline, lines).contains(
            "L"@ + decimal((i + 1) as nat) + " symbol | struct "@ + lines[i],
        ),
        lines[i] == "const "@ + rest ==> summary_records(LineSummary::Outline, lines).contains(
            "L"@ + decimal((i + 1) as nat) + " symbol | constant "@ + lines[i],
        ),
{
    reveal_strlit("fn ");
    reveal_strlit("def ");
    reveal_strlit("func ");
    reveal_strlit("class ");
    reveal_strlit("struct ");
    reveal_strlit("const ");
    reveal_strlit("static ");
    let line = lines[i];
    if line == "fn "@ + rest || line == "def "@ + rest || line == "class "@ + rest || line
        == "struct "@ + rest || line == "const "@ + rest {
        law_tight(line);
        lemma_short_name(line);
        crate::text_laws::law_ends("fn "@, rest);
        crate::text_laws::law_ends("def "@, rest);
        crate::text_laws::law_ends("class "@, rest);
        crate::text_laws::law_ends("struct "@, rest);
        crate::text_laws::law_ends("const "@, rest);
        lemma_other_start(line, "fn "@);
        lemma_other_start(line, "def "@);
        lemma_other_start(line, "func "@);
        lemma_other_start(line, "class "@);
        lemma_other_start(line, "struct "@);
        lemma_summary_holds(LineSummary::Outline, lines, i);
    }
}

proof fn lemma_other_start(line: Seq<char>, word: Seq<char>)
    requires
        line.len() > 1,
        word.len() > 1,
    ensures
        crate::text::has_prefix(line, word) ==> line[0] == word[0] && line[1] == word[1],
{
    if crate::text::has_prefix(line, word) {
        assert(line.subrange(0, word.len() as int)[0] == line[0]);
        assert(line.subrange(0, word.len() as int)[1] == line[1]);
    }
}

/// An inspection is shown as its path, its kind, how it is shown, its size and
/// how lines are written, and behind an empty line its body.
pub proof fn law_inspection_text(view: InspectionView)
    requires
        view.body.len() > 0,
    ensures
        rendered(view) == joined(
            seq![
                "file_path="@ + view.file_path,
                "file_kind="@ + view.file_kind,
                "render="@ + view.render,
                "bytes="@ + decimal(view.bytes as nat) + " lines="@ + decimal(view.lines)
                    + " line_numbers=original"@,
                "line_format=source:L<n>| summary:L<n> <type>|"@,
                Seq::empty(),
                view.body,
            ],
            seq!['\n'],
        ),
{
    reveal_strlit("\n");
    assert("\n"@ =~= seq!['\n']);
    assert(header_of(view).push(Seq::empty()).push(view.body) =~= seq![
        "file_path="@ + view.file_path,
        "file_kind="@ + view.file_kind,
        "render="@ + view.render,
        "bytes="@ + decimal(view.bytes as nat) + " lines="@ + decimal(view.lines)
            + " line_numbers=original"@,
        "line_format=source:L<n>| summary:L<n> <type>|"@,
        Seq::empty(),
        view.body,
    ]);
}

} // verus!
