//! What holds of all inspected files: what kind they are, how long a line of a
//! summary is and how many lines it has.
use super::inspect_file::{
    body_lines, code_body, compacted, config_count, config_like, kind_of, meaningful_count,
    naming_child, preview_of, summary_records, symbol_name, text_like, FileKind, LineSummary,
    Rendering,
};
use crate::case::ascii_lowercase;
use crate::shell_parse::reading_laws::{lemma_spelled, spelled};
use crate::split::{lines_of, replaced};
use crate::syntax::{field_child, NodeView};
use crate::text::{has_prefix, has_suffix, trimmed};
use crate::text_laws::{blank, law_replaced, law_trim, tight};
use vstd::prelude::*;
use vstd::string::*;

verus! {

// Kinds.

/// A lock file is known by its name, in any case, or by how it ends, whatever
/// its lines say.
pub proof fn law_lock_files(
    name: Seq<char>,
    stem: Seq<char>,
    end: Seq<char>,
    lines: Seq<Seq<char>>,
)
    requires
        spelled(name, "cargo.lock"@) || spelled(name, "package-lock.json"@) || spelled(name, "pnpm-lock.yaml"@) || spelled(name, "yarn.lock"@) || spelled(name, "bun.lockb"@),
        spelled(end, ".lock"@),
    ensures
        kind_of(name, lines) is Lockfile,
        kind_of(stem + end, lines) is Lockfile,
{
    reveal_strlit("cargo.lock");
    reveal_strlit("package-lock.json");
    reveal_strlit("pnpm-lock.yaml");
    reveal_strlit("yarn.lock");
    reveal_strlit("bun.lockb");
    reveal_strlit(".lock");
    if spelled(name, "cargo.lock"@) {
        lemma_spelled(name, "cargo.lock"@);
    } else if spelled(name, "package-lock.json"@) {
        lemma_spelled(name, "package-lock.json"@);
    } else if spelled(name, "pnpm-lock.yaml"@) {
        lemma_spelled(name, "pnpm-lock.yaml"@);
    } else if spelled(name, "yarn.lock"@) {
        lemma_spelled(name, "yarn.lock"@);
    } else if spelled(name, "bun.lockb"@) {
        lemma_spelled(name, "bun.lockb"@);
    }
    lemma_spelled(end, ".lock"@);
    let t = ascii_lowercase(stem + end);
    let n = stem.len() as int;
    assert(t.subrange(n, n + 5) =~= ascii_lowercase(end));
    assert(has_suffix(t, ".lock"@));
}

/// Some files of settings are known by their names, in any case, and those of
/// an environment by how they start.
pub proof fn law_settings_files(
    name: Seq<char>,
    env: Seq<char>,
    rest: Seq<char>,
    lines: Seq<Seq<char>>,
)
    requires
        spelled(name, "dockerfile"@) || spelled(name, "makefile"@) || spelled(name, ".gitignore"@) || spelled(name, ".gitattributes"@) || spelled(name, ".editorconfig"@) || spelled(name, ".npmrc"@) || spelled(name, ".yarnrc"@) || spelled(name, ".dockerignore"@),
        spelled(env, ".env"@),
        !super::inspect_file::lockfile_name(ascii_lowercase(name)),
        !super::inspect_file::lockfile_name(ascii_lowercase(env + rest)),
    ensures
        kind_of(name, lines) is Config,
        kind_of(env + rest, lines) is Config,
{
    reveal_strlit("dockerfile");
    reveal_strlit("makefile");
    reveal_strlit(".gitignore");
    reveal_strlit(".gitattributes");
    reveal_strlit(".editorconfig");
    reveal_strlit(".npmrc");
    reveal_strlit(".yarnrc");
    reveal_strlit(".dockerignore");
    reveal_strlit(".env");
    if spelled(name, "dockerfile"@) {
        lemma_spelled(name, "dockerfile"@);
    } else if spelled(name, "makefile"@) {
        lemma_spelled(name, "makefile"@);
    } else if spelled(name, ".gitignore"@) {
        lemma_spelled(name, ".gitignore"@);
    } else if spelled(name, ".gitattributes"@) {
        lemma_spelled(name, ".gitattributes"@);
    } else if spelled(name, ".editorconfig"@) {
        lemma_spelled(name, ".editorconfig"@);
    } else if spelled(name, ".npmrc"@) {
        lemma_spelled(name, ".npmrc"@);
    } else if spelled(name, ".yarnrc"@) {
        lemma_spelled(name, ".yarnrc"@);
    } else if spelled(name, ".dockerignore"@) {
        lemma_spelled(name, ".dockerignore"@);
    }
    lemma_spelled(env, ".env"@);
    let t = ascii_lowercase(env + rest);
    assert(t.subrange(0, 4) =~= ascii_lowercase(env));
    assert(has_prefix(t, ".env"@));
}

/// Whether a line sets something: it holds an equals sign or a colon and is no
/// comment.
pub open spec fn sets(line: Seq<char>) -> bool {
    &&& line.len() > 0 && tight(line)
    &&& line[0] != '#' && line[0] != '/'
    &&& line.contains('=') || line.contains(':')
}

/// Whether a line says something else.
pub open spec fn says(line: Seq<char>) -> bool {
    &&& line.len() > 0 && tight(line)
    &&& line[0] != '#' && line[0] != '/' && line[0] != '['
    &&& !line.contains('=') && !line.contains(':')
}

proof fn lemma_line(line: Seq<char>)
    requires
        sets(line) || says(line),
    ensures
        trimmed(line) == line,
        super::inspect_file::meaningful_line(line),
        super::inspect_file::section_line(line) || super::inspect_file::config_key_line(line)
            <==> sets(line),
{
    crate::text_laws::law_tight(line);
    reveal_strlit("//");
    if has_prefix(line, "//"@) {
        assert(line.subrange(0, 2)[0] == line[0]);
    }
}

/// How many lines set something.
pub open spec fn settings(lines: Seq<Seq<char>>) -> nat
    decreases lines.len(),
{
    if lines.len() == 0 {
        0
    } else {
        settings(lines.drop_last()) + if sets(lines.last()) {
            1nat
        } else {
            0nat
        }
    }
}

proof fn lemma_counts(lines: Seq<Seq<char>>)
    requires
        forall|i: int| 0 <= i < lines.len() ==> sets(#[trigger] lines[i]) || says(lines[i]),
    ensures
        meaningful_count(lines) == lines.len(),
        config_count(lines) == settings(lines),
    decreases lines.len(),
{
    if lines.len() > 0 {
        let before = lines.drop_last();
        assert forall|i: int| 0 <= i < before.len() implies sets(#[trigger] before[i]) || says(
            before[i],
        ) by {
            assert(before[i] == lines[i]);
        }
        lemma_counts(before);
        assert(sets(lines[lines.len() - 1]) || says(lines[lines.len() - 1]));
        lemma_line(lines.last());
    }
}

/// A text reads like settings where at least half of its first fifty lines set
/// something.
pub proof fn law_reads_like_settings(lines: Seq<Seq<char>>)
    requires
        forall|i: int| 0 <= i < lines.len() ==> sets(#[trigger] lines[i]) || says(lines[i]),
    ensures
        0 < lines.len() <= 50 ==> (config_like(lines) <==> settings(lines) * 2 >= lines.len()),
        lines.len() > 50 ==> (config_like(lines) <==> settings(lines.take(50)) >= 25),
        lines.len() == 0 ==> !config_like(lines),
{
    lemma_counts(lines);
    if lines.len() > 50 {
        let head = lines.take(50);
        assert forall|i: int| 0 <= i < head.len() implies sets(#[trigger] head[i]) || says(
            head[i],
        ) by {
            assert(head[i] == lines[i]);
        }
        lemma_counts(head);
    }
}

/// A text says something where one of its first twenty lines does.
pub proof fn law_says_something(lines: Seq<Seq<char>>, i: int)
    requires
        0 <= i < lines.len(),
    ensures
        i < 20 && says(lines[i]) ==> text_like(lines),
        (forall|j: int| 0 <= j < lines.len() && j < 20 ==> blank(#[trigger] lines[j]))
            ==> !text_like(lines),
{
    if says(lines[i]) {
        lemma_line(lines[i]);
    }
    if forall|j: int| 0 <= j < lines.len() && j < 20 ==> blank(#[trigger] lines[j]) {
        assert forall|j: int| 0 <= j < lines.len() && j < 20 implies trimmed(
            #[trigger] lines[j],
        ).len() == 0 by {
            let e = Seq::<char>::empty();
            law_trim(lines[j], e, e);
            assert(lines[j] + e + e =~= lines[j]);
        }
    }
}

// Lines.

/// A line of a summary is what was said without the white space around it; a
/// tab becomes a space, and more than a hundred and eighty characters are cut.
pub proof fn law_summary_line(a: Seq<char>, s: Seq<char>, b: Seq<char>, t: Seq<char>)
    requires
        blank(a) && blank(b),
        tight(s) && !s.contains('\t'),
        s.len() > 0 && t.len() > 0 && tight(t) && !t.contains('\t'),
        s.len() + t.len() < 180,
    ensures
        compacted(a + s + b) == s,
        compacted(s + seq!['\t'] + t) == s + seq![' '] + t,
{
    reveal_strlit("\t");
    reveal_strlit(" ");
    assert("\t"@ =~= seq!['\t'] && " "@ =~= seq![' ']);
    law_trim(a, s, b);
    law_replaced(s, seq!['\t'], seq![' '], t);
    law_replaced(t, seq!['\t'], seq![' '], t);
    let whole = s + seq!['\t'] + t;
    assert(whole[0] == s[0] && whole.last() == t.last());
    crate::text_laws::law_tight(whole);
    assert(replaced(t, seq!['\t'], seq![' ']) == t);
}

/// What is too long for a line is cut behind the first hundred and eighty
/// characters, and the cut is marked.
pub proof fn law_long_summary_line(s: Seq<char>)
    requires
        tight(s) && !s.contains('\t'),
    ensures
        s.len() <= 180 ==> compacted(s) == s,
        s.len() > 180 ==> compacted(s) == s.take(180) + "..."@,
{
    reveal_strlit("\t");
    reveal_strlit(" ");
    assert("\t"@ =~= seq!['\t'] && " "@ =~= seq![' ']);
    crate::text_laws::law_tight(s);
    law_replaced(s, seq!['\t'], seq![' '], s);
}

/// A preview is the first five lines that say something, and says so where
/// there is none.
pub proof fn law_preview(lines: Seq<Seq<char>>)
    ensures
        ({
            let all = summary_records(LineSummary::Preview, lines);
            &&& all.len() == 0 ==> preview_of(lines) == seq!["preview=<empty>"@]
            &&& 0 < all.len() <= 5 ==> preview_of(lines) == all
            &&& all.len() > 5 ==> preview_of(lines) == all.take(5)
        }),
{
}

/// A summary of settings has at most two hundred lines below its hint; one of
/// code has its outline, or a preview where there is none, and an advice where
/// it is long.
pub proof fn law_summaries(
    lines: Seq<Seq<char>>,
    outline: Seq<Seq<char>>,
    kind: FileKind,
)
    requires
        kind is Config || kind is Lockfile,
    ensures
        ({
            let hint = seq!["hint=use slice/read_lines for exact ranges"@];
            let all = summary_records(LineSummary::Config, lines);
            let summary = body_lines(kind, Rendering::Summary, lines, outline);
            &&& all.len() <= 200 ==> summary == hint + all
            &&& all.len() > 200 ==> summary == hint + all.take(200)
            &&& body_lines(FileKind::Text, Rendering::Summary, lines, outline) == hint + preview_of(
                lines,
            )
            &&& body_lines(FileKind::Unknown, Rendering::Summary, lines, outline) == hint
                + preview_of(lines)
            &&& lines.len() <= 500 && outline.len() > 0 ==> code_body(lines, outline) == hint
                + outline
            &&& lines.len() <= 500 && outline.len() == 0 ==> code_body(lines, outline) == hint
                + preview_of(lines)
            &&& lines.len() > 500 && outline.len() > 0 ==> code_body(lines, outline) == hint
                + seq!["advice=large_code_prefer_split_modules"@] + outline
        }),
{
    let hint = seq!["hint=use slice/read_lines for exact ranges"@];
    assert(hint + Seq::<Seq<char>>::empty() =~= hint);
}

// Symbols.

/// A symbol is named by its name, by its declarator where it has none, and by
/// its first line where it has neither.
pub proof fn law_symbol_names(nodes: Seq<NodeView>, i: int, text: Seq<char>)
    ensures
        ({
            let depth = nodes[i].depth as int;
            let name = field_child(nodes, depth, i + 1, "name"@);
            let declarator = field_child(nodes, depth, i + 1, "declarator"@);
            &&& name is Some ==> naming_child(nodes, i) == name
            &&& name is None ==> naming_child(nodes, i) == declarator
            &&& name is None && declarator is None ==> (super::inspect_file::node_text(
                nodes[i],
                text,
            ) matches Some(own) && lines_of(own).len() > 0 ==> symbol_name(nodes, i, text)
                == lines_of(super::inspect_file::node_text(nodes[i], text)->0)[0])
        }),
{
}

} // verus!
