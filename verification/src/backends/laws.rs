//! What holds of all searches, listings and projections.
use super::directory::{
    listing_lines, listing_text, name_matches, path_keys, takes, DirectoryListView,
    DirectoryMatchField, DirectoryNameMatchView, EntryView,
};
use super::grep::{
    block_at, block_line, blocks_in, context_matches, holds_text, matches_in, tool_text,
    verdicts_on, GrepContextQueryView, GrepQueryView, MatchView,
};
use super::projection::{
    column_text, filtered, keeps, known_lengths, largest, measured, pipeline_files, projected_lines,
    smallest, sort_key, sort_keys, sorted_files, total, FactsView, FileField, FileMetadata,
    FileSort, FileWhereView, FindMeasureView, FindPipelineView, MeasureKind, MetadataField,
    ProjectionView,
};
use super::slice::{last_lines, window};
use super::walk::{search_tree, FileTree};
use crate::case::{all_ascii, ascii_lower, ascii_lowercase, lowered};
use crate::number::decimal;
use crate::patterns::{accepted_match, regex_escaped, regex_matches, wildcard_matches};
use crate::record_laws::{lemma_text_order, text_before};
use crate::sorting::{key_less, law_sorting, order_of, precedes};
use crate::split::{joined, replaced};
use crate::text_laws::{law_has_text, stands_in};
use vstd::prelude::*;
use vstd::string::*;

verus! {

// Searches.

/// Whether two characters are the same letter up to ASCII case.
pub open spec fn alike(a: char, b: char) -> bool {
    ||| a == b
    ||| 'A' <= a && a <= 'Z' && b as u32 == a as u32 + 32
    ||| 'A' <= b && b <= 'Z' && a as u32 == b as u32 + 32
}

/// Whether two texts are the same up to ASCII case.
pub open spec fn alike_texts(a: Seq<char>, b: Seq<char>) -> bool {
    a.len() == b.len() && forall|i: int| 0 <= i < a.len() ==> alike(#[trigger] a[i], b[i])
}

proof fn lemma_alike(a: char, b: char)
    ensures
        alike(a, b) <==> ascii_lower(a) == ascii_lower(b),
{
}

pub proof fn lemma_alike_texts(a: Seq<char>, b: Seq<char>)
    ensures
        alike_texts(a, b) <==> ascii_lowercase(a) == ascii_lowercase(b),
{
    let x = ascii_lowercase(a);
    let y = ascii_lowercase(b);
    if alike_texts(a, b) {
        assert forall|i: int| 0 <= i < a.len() implies x[i] == y[i] by {
            assert(alike(a[i], b[i]));
            lemma_alike(a[i], b[i]);
        }
        assert(x =~= y);
    }
    if x == y {
        assert(a.len() == x.len() && b.len() == y.len());
        assert forall|i: int| 0 <= i < a.len() implies alike(#[trigger] a[i], b[i]) by {
            assert(x[i] == ascii_lower(a[i]) && y[i] == ascii_lower(b[i]));
            lemma_alike(a[i], b[i]);
        }
    }
}

/// Whether a line holds a pattern somewhere: the same characters where case
/// counts, and the same letters where it does not.
pub open spec fn line_holds(line: Seq<char>, pattern: Seq<char>, case_sensitive: bool) -> bool {
    exists|p: Seq<char>, word: Seq<char>, q: Seq<char>|
        line == #[trigger] (p + word + q) && if case_sensitive {
            word == pattern
        } else {
            alike_texts(word, pattern)
        }
}

#[verifier::rlimit(40)]
proof fn lemma_line_holds(line: Seq<char>, pattern: Seq<char>, case_sensitive: bool)
    requires
        case_sensitive || (all_ascii(line) && all_ascii(pattern)),
    ensures
        holds_text(line, pattern, case_sensitive) <==> line_holds(line, pattern, case_sensitive),
{
    if case_sensitive {
        law_has_text(line, pattern);
        if stands_in(pattern, line) {
            let (p, q) = choose|p: Seq<char>, q: Seq<char>| line == #[trigger] (p + pattern + q);
            assert(line == p + pattern + q);
        }
        if line_holds(line, pattern, case_sensitive) {
            let (p, word, q) = choose|p: Seq<char>, word: Seq<char>, q: Seq<char>|
                line == #[trigger] (p + word + q) && word == pattern;
            assert(stands_in(pattern, line));
        }
    } else {
        let a = lowered(line);
        let b = lowered(pattern);
        law_has_text(a, b);
        if stands_in(b, a) {
            let (p, q) = choose|p: Seq<char>, q: Seq<char>| a == #[trigger] (p + b + q);
            let n = p.len() as int;
            let m = n + b.len() as int;
            assert(a.len() == line.len());
            assert(b.len() == pattern.len());
            let word = line.subrange(n, m);
            assert(line =~= line.take(n) + word + line.skip(m));
            assert(ascii_lowercase(word) =~= b) by {
                assert forall|i: int| 0 <= i < word.len() implies ascii_lowercase(word)[i]
                    == b[i] by {
                    assert(word[i] == line[n + i]);
                    assert(a[n + i] == ascii_lower(line[n + i]));
                    assert((p + b + q)[n + i] == b[i]);
                }
            }
            lemma_alike_texts(word, pattern);
        }
        if line_holds(line, pattern, case_sensitive) {
            let (p, word, q) = choose|p: Seq<char>, word: Seq<char>, q: Seq<char>|
                line == #[trigger] (p + word + q) && alike_texts(word, pattern);
            lemma_alike_texts(word, pattern);
            let x = ascii_lowercase(p);
            let y = ascii_lowercase(q);
            assert(a =~= x + b + y);
            assert(stands_in(b, a));
        }
    }
}

/// A line of a file is found exactly where it holds the pattern, anywhere in
/// the line, and it is found with its path, its number and its text. Where
/// case does not count this is said of ASCII texts.
pub proof fn law_lines_are_found(
    path: Seq<char>,
    lines: Seq<Seq<char>>,
    query: GrepQueryView,
    i: int,
)
    requires
        0 <= i < lines.len(),
        query.case_sensitive || (all_ascii(lines[i]) && all_ascii(query.pattern)),
    ensures
        matches_in(path, lines, query).contains(
            MatchView { path, line_number: (i + 1) as nat, line: lines[i] },
        ) <==> line_holds(lines[i], query.pattern, query.case_sensitive),
{
    lemma_line_holds(lines[i], query.pattern, query.case_sensitive);
    lemma_match_listed(path, lines, query, i);
}

#[verifier::rlimit(40)]
proof fn lemma_match_listed(
    path: Seq<char>,
    lines: Seq<Seq<char>>,
    query: GrepQueryView,
    i: int,
)
    requires
        0 <= i < lines.len(),
    ensures
        matches_in(path, lines, query).contains(
            MatchView { path, line_number: (i + 1) as nat, line: lines[i] },
        ) <==> holds_text(lines[i], query.pattern, query.case_sensitive),
    decreases lines.len(),
{
    let all = matches_in(path, lines, query);
    let before = matches_in(path, lines.drop_last(), query);
    let m = MatchView { path, line_number: (i + 1) as nat, line: lines[i] };
    lemma_numbers_bounded(path, lines.drop_last(), query);
    if i == lines.len() - 1 {
        if holds_text(lines[i], query.pattern, query.case_sensitive) {
            assert(all[before.len() as int] == m);
        } else if all.contains(m) {
            let k = all.index_of(m);
            assert(before[k].line_number <= lines.len() - 1);
        }
    } else {
        assert(lines.drop_last()[i] == lines[i]);
        lemma_match_listed(path, lines.drop_last(), query, i);
        if before.contains(m) {
            let k = before.index_of(m);
            assert(all[k] == m);
        }
        if all.contains(m) {
            let k = all.index_of(m);
            if k < before.len() {
                assert(before[k] == m);
            }
        }
    }
}

proof fn lemma_numbers_bounded(path: Seq<char>, lines: Seq<Seq<char>>, query: GrepQueryView)
    ensures
        forall|k: int|
            0 <= k < matches_in(path, lines, query).len() ==> 1 <= (#[trigger] matches_in(
                path,
                lines,
                query,
            )[k]).line_number <= lines.len(),
    decreases lines.len(),
{
    if lines.len() > 0 {
        lemma_numbers_bounded(path, lines.drop_last(), query);
        let all = matches_in(path, lines, query);
        let before = matches_in(path, lines.drop_last(), query);
        assert forall|k: int| 0 <= k < all.len() implies 1 <= (#[trigger] all[k]).line_number
            <= lines.len() by {
            if k < before.len() {
                assert(all[k] == before[k]);
            }
        }
    }
}

/// Matches come in the order of their lines.
pub proof fn law_matches_in_order(
    path: Seq<char>,
    lines: Seq<Seq<char>>,
    query: GrepQueryView,
    j: int,
    k: int,
)
    requires
        0 <= j < k < matches_in(path, lines, query).len(),
    ensures
        matches_in(path, lines, query)[j].line_number < matches_in(
            path,
            lines,
            query,
        )[k].line_number,
    decreases lines.len(),
{
    if lines.len() > 0 {
        let before = matches_in(path, lines.drop_last(), query);
        lemma_numbers_bounded(path, lines.drop_last(), query);
        if k < before.len() {
            law_matches_in_order(path, lines.drop_last(), query, j, k);
        } else {
            assert(matches_in(path, lines, query)[j] == before[j]);
        }
    }
}

/// A match is shown as its path, its line number and its line, with colons
/// between them.
pub proof fn law_match_text(path: Seq<char>, number: nat, line: Seq<char>)
    ensures
        tool_text(MatchView { path, line_number: number, line }) == path + seq![':'] + decimal(
            number,
        ) + seq![':'] + line,
{
    reveal_strlit(":");
    assert(":"@ =~= seq![':']);
}

/// How many of `wanted` lines there are, when so many are there.
pub open spec fn no_more_than(wanted: nat, there: nat) -> nat {
    if wanted < there {
        wanted
    } else {
        there
    }
}

/// The block of a match has the lines before it, the match and the lines
/// behind it, as many as are asked for and are there, each with its path, its
/// number and what it is.
#[verifier::rlimit(40)]
pub proof fn law_block(
    path: Seq<char>,
    lines: Seq<Seq<char>>,
    query: GrepContextQueryView,
    index: int,
)
    requires
        0 <= index < lines.len(),
    ensures
        ({
            let above = no_more_than(query.before as nat, index as nat);
            let below = no_more_than(query.after as nat, (lines.len() - 1 - index) as nat);
            exists|rows: Seq<Seq<char>>|
                {
                    &&& rows.len() == above + 1 + below
                    &&& block_at(path, lines, query, index) == #[trigger] joined(rows, seq!['\n'])
                    &&& forall|k: int|
                        0 <= k < above ==> #[trigger] rows[k] == path + ":L"@ + decimal(
                            (index - above + k + 1) as nat,
                        ) + ":before: "@ + lines[index - above + k]
                    &&& rows[above as int] == path + ":L"@ + decimal((index + 1) as nat)
                        + ":match: "@ + lines[index]
                    &&& forall|k: int|
                        above < k < rows.len() ==> #[trigger] rows[k] == path + ":L"@ + decimal(
                            (index - above + k + 1) as nat,
                        ) + ":after: "@ + lines[index - above + k]
                }
        }),
{
    reveal_strlit("\n");
    reveal_strlit(":");
    reveal_strlit(": ");
    reveal_strlit("before");
    reveal_strlit("match");
    reveal_strlit("after");
    reveal_strlit(":before: ");
    reveal_strlit(":match: ");
    reveal_strlit(":after: ");
    assert("\n"@ =~= seq!['\n']);
    assert(":before: "@ =~= ":"@ + "before"@ + ": "@);
    assert(":match: "@ =~= ":"@ + "match"@ + ": "@);
    assert(":after: "@ =~= ":"@ + "after"@ + ": "@);
    let above = no_more_than(query.before as nat, index as nat);
    let below = no_more_than(query.after as nat, (lines.len() - 1 - index) as nat);
    let start = super::grep::block_start(query, index);
    let end = super::grep::block_end(query, lines, index);
    assert(start == index - above);
    assert(end - start == above + 1 + below);
    let rows = Seq::new((end - start) as nat, |k: int| block_line(path, lines, start + k, index));
    assert forall|k: int| 0 <= k < above implies #[trigger] rows[k] == path + ":L"@ + decimal(
        (index - above + k + 1) as nat,
    ) + ":before: "@ + lines[index - above + k] by {
        assert(rows[k] =~= path + ":L"@ + decimal((index - above + k + 1) as nat) + ":before: "@
            + lines[index - above + k]);
    }
    assert(rows[above as int] =~= path + ":L"@ + decimal((index + 1) as nat) + ":match: "@
        + lines[index]);
    assert forall|k: int| above < k < rows.len() implies #[trigger] rows[k] == path + ":L"@
        + decimal((index - above + k + 1) as nat) + ":after: "@ + lines[index - above + k] by {
        assert(rows[k] =~= path + ":L"@ + decimal((index - above + k + 1) as nat) + ":after: "@
            + lines[index - above + k]);
    }
    assert(block_at(path, lines, query, index) == joined(rows, seq!['\n']));
}

/// A search with context shows a block for every line that matches: one that
/// holds the text, or one that the pattern matches where it is a pattern, in
/// any case unless case counts.
pub proof fn law_blocks(
    path: Seq<char>,
    lines: Seq<Seq<char>>,
    query: GrepContextQueryView,
    i: int,
)
    requires
        0 <= i < lines.len(),
        query.simple_match && !query.case_sensitive ==> all_ascii(lines[i]) && all_ascii(
            query.pattern,
        ),
    ensures
        query.simple_match && line_holds(lines[i], query.pattern, query.case_sensitive)
            ==> blocks_in(path, lines, query, verdicts_on(query, lines), lines.len()).contains(
            block_at(path, lines, query, i),
        ),
        !query.simple_match && query.case_sensitive && regex_matches(query.pattern, lines[i])
            ==> blocks_in(path, lines, query, verdicts_on(query, lines), lines.len()).contains(
            block_at(path, lines, query, i),
        ),
        !query.simple_match && !query.case_sensitive && regex_matches(
            seq!['(', '?', 'i', ')'] + query.pattern,
            lines[i],
        ) ==> blocks_in(path, lines, query, verdicts_on(query, lines), lines.len()).contains(
            block_at(path, lines, query, i),
        ),
{
    reveal_strlit("(?i)");
    assert("(?i)"@ =~= seq!['(', '?', 'i', ')']);
    if query.simple_match {
        lemma_line_holds(lines[i], query.pattern, query.case_sensitive);
    }
    if context_matches(query, lines[i]) {
        lemma_block_listed(path, lines, query, lines.len(), i);
    }
}

proof fn lemma_block_listed(
    path: Seq<char>,
    lines: Seq<Seq<char>>,
    query: GrepContextQueryView,
    n: nat,
    i: int,
)
    requires
        0 <= i < n <= lines.len(),
        context_matches(query, lines[i]),
    ensures
        blocks_in(path, lines, query, verdicts_on(query, lines), n).contains(
            block_at(path, lines, query, i),
        ),
    decreases n,
{
    let verdicts = verdicts_on(query, lines);
    let all = blocks_in(path, lines, query, verdicts, n);
    let before = blocks_in(path, lines, query, verdicts, (n - 1) as nat);
    let block = block_at(path, lines, query, i);
    if i == n - 1 {
        assert(all[before.len() as int] == block);
    } else {
        lemma_block_listed(path, lines, query, (n - 1) as nat, i);
        let k = before.index_of(block);
        assert(all[k] == block);
    }
}

/// There are as many blocks as lines that match.
pub proof fn law_block_count(path: Seq<char>, lines: Seq<Seq<char>>, query: GrepContextQueryView)
    ensures
        blocks_in(path, lines, query, verdicts_on(query, lines), lines.len()).len()
            == lines.filter(|line: Seq<char>| context_matches(query, line)).len(),
{
    lemma_block_count(path, lines, query, lines.len());
    assert(lines.take(lines.len() as int) =~= lines);
}

proof fn lemma_block_count(
    path: Seq<char>,
    lines: Seq<Seq<char>>,
    query: GrepContextQueryView,
    n: nat,
)
    requires
        n <= lines.len(),
    ensures
        blocks_in(path, lines, query, verdicts_on(query, lines), n).len() == lines.take(
            n as int,
        ).filter(|line: Seq<char>| context_matches(query, line)).len(),
    decreases n,
{
    reveal(Seq::filter);
    if n > 0 {
        lemma_block_count(path, lines, query, (n - 1) as nat);
        assert(lines.take(n as int).drop_last() =~= lines.take(n - 1));
        assert(lines.take(n as int).last() == lines[n - 1]);
    }
}

// Windows.

/// A window of lines starts behind those that are skipped and has as many as
/// are asked for and are there; the last lines end with the last.
pub proof fn law_windows(lines: Seq<Seq<char>>, skip: nat, first: nat, k: int)
    ensures
        window(lines, skip, first).len() == if skip >= lines.len() {
            0
        } else {
            no_more_than(first, (lines.len() - skip) as nat)
        },
        0 <= k < window(lines, skip, first).len() ==> window(lines, skip, first)[k] == lines[skip
            + k],
        last_lines(lines, first).len() == no_more_than(first, lines.len()),
        0 <= k < last_lines(lines, first).len() ==> last_lines(lines, first)[last_lines(
            lines,
            first,
        ).len() - 1 - k] == lines[lines.len() - 1 - k],
{
}

// Listings.

/// A listing has exactly the entries that are files where files are asked
/// for, directories where directories are, and that match the filter where
/// there is one; as names where names are asked for, else as paths.
#[verifier::rlimit(40)]
pub proof fn law_listing(list: DirectoryListView, entries: Seq<EntryView>)
    ensures
        ({
            let kept = entries.filter(
                |entry: EntryView|
                    (!list.files_only || entry.is_file) && (!list.directories_only || entry.is_dir)
                        && (list.filter matches Some(filter) ==> wildcard_matches(
                        entry.name,
                        filter,
                    )),
            );
            let lines = listing_lines(list, entries);
            exists|places: Seq<int>|
                {
                    &&& places.len() == kept.len()
                    &&& lines.len() == kept.len()
                    &&& #[trigger] places.no_duplicates()
                    &&& forall|i: int|
                        0 <= i < places.len() ==> 0 <= #[trigger] places[i] < kept.len() && lines[i]
                            == if list.names_only {
                            kept[places[i]].name
                        } else {
                            kept[places[i]].path
                        }
                    &&& forall|i: int, j: int|
                        0 <= i < j < places.len() ==> !text_before(
                            ascii_lowercase(kept[#[trigger] places[j]].path),
                            ascii_lowercase(kept[#[trigger] places[i]].path),
                        )
                }
        }),
{
    let keep = |entry: EntryView|
        (!list.files_only || entry.is_file) && (!list.directories_only || entry.is_dir) && (
        list.filter matches Some(filter) ==> wildcard_matches(entry.name, filter));
    lemma_taken(list, entries, keep);
    let kept = super::directory::taken(list, entries);
    let keys = path_keys(kept);
    law_sorting(keys, false);
    let places = order_of(keys, false);
    let lines = listing_lines(list, entries);
    assert forall|i: int, j: int| 0 <= i < j < places.len() implies !text_before(
        ascii_lowercase(kept[#[trigger] places[j]].path),
        ascii_lowercase(kept[#[trigger] places[i]].path),
    ) by {
        lemma_text_order(
            ascii_lowercase(kept[places[j]].path),
            ascii_lowercase(kept[places[i]].path),
        );
    }
    assert forall|i: int| 0 <= i < places.len() implies 0 <= #[trigger] places[i] < kept.len()
        && lines[i] == if list.names_only {
        kept[places[i]].name
    } else {
        kept[places[i]].path
    } by {}
    assert(places.no_duplicates());
}

proof fn lemma_taken(
    list: DirectoryListView,
    entries: Seq<EntryView>,
    keep: spec_fn(EntryView) -> bool,
)
    requires
        forall|entry: EntryView| #[trigger]
            keep(entry) == ((!list.files_only || entry.is_file) && (!list.directories_only
                || entry.is_dir) && (list.filter matches Some(filter) ==> wildcard_matches(
                entry.name,
                filter,
            ))),
    ensures
        super::directory::taken(list, entries) == entries.filter(keep),
    decreases entries.len(),
{
    reveal(Seq::filter);
    if entries.len() > 0 {
        lemma_taken(list, entries.drop_last(), keep);
        assert(keep(entries.last()) == takes(
            list,
            entries.last(),
            super::directory::passes_filter(list, entries.last()),
        ));
    }
}

/// A listing is shown one entry on a line, and one of nothing says so.
pub proof fn law_listing_text(list: DirectoryListView, entries: Seq<EntryView>)
    ensures
        listing_lines(list, entries).len() > 0 ==> listing_text(list, entries) == joined(
            listing_lines(list, entries),
            seq!['\n'],
        ),
        listing_lines(list, entries).len() == 0 ==> listing_text(list, entries) == "no results"@,
{
    reveal_strlit("\n");
    assert("\n"@ =~= seq!['\n']);
}

/// A match on names looks at the name or at the whole path, in any case.
pub proof fn law_name_match(entry: EntryView, pattern: Seq<char>)
    ensures
        name_matches(
            entry,
            DirectoryNameMatchView { field: DirectoryMatchField::Name, pattern },
        ) <==> accepted_match(seq!['(', '?', 'i', ')'] + pattern, entry.name),
        name_matches(
            entry,
            DirectoryNameMatchView { field: DirectoryMatchField::FullName, pattern },
        ) <==> accepted_match(seq!['(', '?', 'i', ')'] + pattern, entry.path),
{
    reveal_strlit("(?i)");
    assert("(?i)"@ =~= seq!['(', '?', 'i', ')']);
}

// Projections.

/// The columns of a file are shown with their names; what is not known is
/// left empty, and a directory is marked.
pub proof fn law_columns(path: Seq<char>, name: Seq<char>, metadata: FileMetadata)
    ensures
        ({
            let facts = FactsView { path, name, metadata: Some(metadata) };
            let bare = FactsView { path, name, metadata: None };
            &&& column_text(facts, MetadataField::FullName) == "FullName="@ + path
            &&& column_text(facts, MetadataField::Name) == "Name="@ + name
            &&& column_text(facts, MetadataField::Length) == "Length="@ + decimal(
                metadata.length as nat,
            )
            &&& metadata.modified matches Some(time) ==> column_text(
                facts,
                MetadataField::LastWriteTime,
            ) == "LastWriteTime="@ + decimal(time as nat)
            &&& metadata.is_dir ==> column_text(facts, MetadataField::Mode) == "Mode=d"@
            &&& !metadata.is_dir ==> column_text(facts, MetadataField::Mode) == "Mode=-"@
            &&& column_text(bare, MetadataField::Length) == "Length="@
            &&& column_text(bare, MetadataField::LastWriteTime) == "LastWriteTime="@
            &&& column_text(bare, MetadataField::Mode) == "Mode=-"@
        }),
{
    reveal_strlit("Mode=");
    reveal_strlit("Mode=d");
    reveal_strlit("Mode=-");
    reveal_strlit("d");
    reveal_strlit("-");
    assert("Mode=d"@ =~= "Mode="@ + "d"@);
    assert("Mode=-"@ =~= "Mode="@ + "-"@);
    assert("Length="@ + Seq::<char>::empty() =~= "Length="@);
    assert("LastWriteTime="@ + Seq::<char>::empty() =~= "LastWriteTime="@);
}

/// A file is shown as its path, or as its columns with spaces between them;
/// of more than two hundred files the first two hundred are shown, and how
/// many are left out.
pub proof fn law_projection(files: Seq<FactsView>, fields: Seq<MetadataField>, i: int)
    requires
        0 <= i < files.len(),
        i < 200,
    ensures
        projected_lines(files, ProjectionView::FullNameOnly)[i] == files[i].path,
        projected_lines(files, ProjectionView::Metadata { fields })[i] == joined(
            fields.map_values(|field: MetadataField| column_text(files[i], field)),
            seq![' '],
        ),
        files.len() <= 200 ==> projected_lines(files, ProjectionView::FullNameOnly).len()
            == files.len(),
        files.len() > 200 ==> projected_lines(files, ProjectionView::FullNameOnly).len() == 201
            && projected_lines(files, ProjectionView::FullNameOnly)[200] == "omitted_count="@
            + decimal((files.len() - 200) as nat),
{
    reveal_strlit(" ");
    assert(" "@ =~= seq![' ']);
}

/// A filter keeps exactly the files whose property is the value up to case,
/// or matches the wildcard, and keeps their order.
#[verifier::rlimit(40)]
pub proof fn law_filter(files: Seq<FactsView>, value: Seq<char>)
    ensures
        filtered(
            Some(FileWhereView::Equals { field: FileField::Name, value }),
            files,
        ) == files.filter(|f: FactsView| alike_texts(f.name, value)),
        filtered(
            Some(FileWhereView::Equals { field: FileField::FullName, value }),
            files,
        ) == files.filter(|f: FactsView| alike_texts(f.path, value)),
        filtered(
            Some(FileWhereView::Like { field: FileField::Name, pattern: value }),
            files,
        ) == files.filter(|f: FactsView| wildcard_matches(f.name, value)),
        filtered(
            Some(FileWhereView::Like { field: FileField::FullName, pattern: value }),
            files,
        ) == files.filter(|f: FactsView| wildcard_matches(f.path, value)),
        filtered(None, files) == files,
{
    let by_name = |f: FactsView| alike_texts(f.name, value);
    let by_path = |f: FactsView| alike_texts(f.path, value);
    let like_name = |f: FactsView| wildcard_matches(f.name, value);
    let like_path = |f: FactsView| wildcard_matches(f.path, value);
    assert forall|f: FactsView| #[trigger] by_name(f) == keeps(
        FileWhereView::Equals { field: FileField::Name, value },
        f,
    ) by {
        lemma_alike_texts(f.name, value);
    }
    assert forall|f: FactsView| #[trigger] by_path(f) == keeps(
        FileWhereView::Equals { field: FileField::FullName, value },
        f,
    ) by {
        lemma_alike_texts(f.path, value);
    }
    lemma_filtered(FileWhereView::Equals { field: FileField::Name, value }, files, by_name);
    lemma_filtered(FileWhereView::Equals { field: FileField::FullName, value }, files, by_path);
    lemma_filtered(
        FileWhereView::Like { field: FileField::Name, pattern: value },
        files,
        like_name,
    );
    lemma_filtered(
        FileWhereView::Like { field: FileField::FullName, pattern: value },
        files,
        like_path,
    );
    lemma_unfiltered(files);
}

proof fn lemma_filtered(
    filter: FileWhereView,
    files: Seq<FactsView>,
    keep: spec_fn(FactsView) -> bool,
)
    requires
        forall|f: FactsView| #[trigger] keep(f) == keeps(filter, f),
    ensures
        filtered(Some(filter), files) == files.filter(keep),
    decreases files.len(),
{
    reveal(Seq::filter);
    if files.len() > 0 {
        lemma_filtered(filter, files.drop_last(), keep);
        assert(keep(files.last()) == keeps(filter, files.last()));
    }
}

proof fn lemma_unfiltered(files: Seq<FactsView>)
    ensures
        filtered(None, files) == files,
    decreases files.len(),
{
    if files.len() > 0 {
        lemma_unfiltered(files.drop_last());
        assert(files.drop_last().push(files.last()) =~= files);
    }
}

/// Whether one number that may be missing is less than another: a missing one
/// is less than any.
pub open spec fn number_less(a: Option<u64>, b: Option<u64>) -> bool {
    match (a, b) {
        (None, Some(_)) => true,
        (Some(x), Some(y)) => x < y,
        _ => false,
    }
}

/// Whether a file comes before another when files are sorted by a property.
pub open spec fn file_before(a: FactsView, b: FactsView, field: FileField) -> bool {
    match field {
        FileField::Length => number_less(
            match a.metadata {
                Some(m) => Some(m.length),
                None => None,
            },
            match b.metadata {
                Some(m) => Some(m.length),
                None => None,
            },
        ),
        FileField::LastWriteTime => number_less(
            match a.metadata {
                Some(m) => m.modified,
                None => None,
            },
            match b.metadata {
                Some(m) => m.modified,
                None => None,
            },
        ),
        FileField::Name => text_before(ascii_lowercase(a.name), ascii_lowercase(b.name)),
        FileField::FullName => text_before(ascii_lowercase(a.path), ascii_lowercase(b.path)),
        FileField::Extension => text_before(
            ascii_lowercase(super::projection::dotted_extension(a.name)),
            ascii_lowercase(super::projection::dotted_extension(b.name)),
        ),
    }
}

proof fn lemma_file_order(a: FactsView, b: FactsView, field: FileField)
    ensures
        key_less(sort_key(a, field), sort_key(b, field)) <==> file_before(a, b, field),
{
    reveal_with_fuel(key_less, 4);
    match field {
        FileField::Length => {},
        FileField::LastWriteTime => {},
        FileField::Name => {
            lemma_text_order(ascii_lowercase(a.name), ascii_lowercase(b.name));
        },
        FileField::FullName => {
            lemma_text_order(ascii_lowercase(a.path), ascii_lowercase(b.path));
        },
        FileField::Extension => {
            lemma_text_order(
                ascii_lowercase(super::projection::dotted_extension(a.name)),
                ascii_lowercase(super::projection::dotted_extension(b.name)),
            );
        },
    }
}

/// Sorted files are all the files, each once, and none comes before one that
/// comes first by the property: numbers go by their size and texts by their
/// letters; in descending order it is the other way round.
pub proof fn law_sorted_files(files: Seq<FactsView>, field: FileField, descending: bool)
    ensures
        ({
            let sorted = sorted_files(files, FileSort { field, descending });
            exists|places: Seq<int>|
                {
                    &&& places.len() == files.len()
                    &&& sorted.len() == files.len()
                    &&& #[trigger] places.no_duplicates()
                    &&& forall|i: int|
                        0 <= i < places.len() ==> 0 <= #[trigger] places[i] < files.len()
                            && sorted[i] == files[places[i]]
                    &&& forall|i: int, j: int|
                        0 <= i < j < places.len() ==> if descending {
                            !file_before(
                                files[#[trigger] places[i]],
                                files[#[trigger] places[j]],
                                field,
                            )
                        } else {
                            !file_before(files[places[j]], files[places[i]], field)
                        }
                }
        }),
{
    let keys = sort_keys(files, field);
    law_sorting(keys, descending);
    let places = order_of(keys, descending);
    let sorted = sorted_files(files, FileSort { field, descending });
    assert forall|i: int| 0 <= i < places.len() implies 0 <= #[trigger] places[i] < files.len()
        && sorted[i] == files[places[i]] by {}
    assert forall|i: int, j: int| 0 <= i < j < places.len() implies if descending {
        !file_before(files[#[trigger] places[i]], files[#[trigger] places[j]], field)
    } else {
        !file_before(files[places[j]], files[places[i]], field)
    } by {
        let a = places[i];
        let b = places[j];
        assert(keys[a] == sort_key(files[a], field) && keys[b] == sort_key(files[b], field));
        assert(!precedes(keys[b], keys[a], descending));
        lemma_file_order(files[a], files[b], field);
        lemma_file_order(files[b], files[a], field);
    }
    assert(places.no_duplicates());
}

/// A pipeline filters first, sorts what is left, and shows the first so many.
pub proof fn law_pipeline(files: Seq<FactsView>, pipeline: FindPipelineView, limit: usize)
    ensures
        ({
            let kept = filtered(pipeline.where_filter, files);
            let all = pipeline_files(files, FindPipelineView { limit: None, ..pipeline });
            let some = pipeline_files(files, FindPipelineView { limit: Some(limit), ..pipeline });
            &&& pipeline.sort is None ==> all == kept
            &&& pipeline.sort matches Some(sort) ==> all == sorted_files(kept, sort)
            &&& all.len() <= limit ==> some == all
            &&& all.len() > limit ==> some == all.take(limit as int)
        }),
{
}

/// A measure counts the files that are kept; of lengths it tells how many
/// there are, their sum, and the smallest and the largest.
pub proof fn law_measure(
    files: Seq<FactsView>,
    query: super::everything::FindQueryView,
    filter: Option<FileWhereView>,
    least: u64,
    most: u64,
)
    ensures
        measured(
            files,
            FindMeasureView { query, where_filter: filter, measure: MeasureKind::Count },
        ) == "Count="@ + decimal(filtered(filter, files).len()),
        ({
            let lengths = known_lengths(filtered(filter, files));
            lengths.contains(least) && lengths.contains(most) && (forall|i: int|
                0 <= i < lengths.len() ==> least <= #[trigger] lengths[i] <= most) ==> measured(
                files,
                FindMeasureView { query, where_filter: filter, measure: MeasureKind::Length },
            ) == "Count="@ + decimal(lengths.len()) + " Sum="@ + decimal(total(lengths))
                + " Minimum="@ + decimal(least as nat) + " Maximum="@ + decimal(most as nat)
        }),
{
    let lengths = known_lengths(filtered(filter, files));
    if lengths.contains(least) && lengths.contains(most) && (forall|i: int|
        0 <= i < lengths.len() ==> least <= #[trigger] lengths[i] <= most) {
        lemma_bounds(lengths);
        let i = lengths.index_of(least);
        let j = lengths.index_of(most);
        assert(lengths[i] == least && lengths[j] == most);
        assert(smallest(lengths) == Some(least));
        assert(largest(lengths) == Some(most));
    }
}

proof fn lemma_bounds(lengths: Seq<u64>)
    ensures
        lengths.len() > 0 ==> smallest(lengths) is Some && largest(lengths) is Some
            && lengths.contains(smallest(lengths)->0) && lengths.contains(largest(lengths)->0),
        forall|i: int|
            0 <= i < lengths.len() ==> smallest(lengths)->0 <= #[trigger] lengths[i]
                <= largest(lengths)->0,
    decreases lengths.len(),
{
    if lengths.len() > 0 {
        let fewer = lengths.drop_last();
        lemma_bounds(fewer);
        assert(lengths[lengths.len() - 1] == lengths.last());
        assert forall|i: int| 0 <= i < lengths.len() implies smallest(lengths)->0
            <= #[trigger] lengths[i] <= largest(lengths)->0 by {
            if i < fewer.len() {
                assert(fewer[i] == lengths[i]);
            }
        }
        if fewer.len() > 0 {
            let a = fewer.index_of(smallest(fewer)->0);
            let b = fewer.index_of(largest(fewer)->0);
            assert(lengths[a] == fewer[a] && lengths[b] == fewer[b]);
        } else {
            assert(fewer =~= Seq::<u64>::empty());
        }
    }
}

/// The sum of lengths grows by each length, and a file with a length counts
/// with it.
pub proof fn law_sum(lengths: Seq<u64>, length: u64, files: Seq<FactsView>, file: FactsView)
    ensures
        total(Seq::empty()) == 0,
        total(lengths.push(length)) == total(lengths) + length,
        known_lengths(Seq::empty()) == Seq::<u64>::empty(),
        file.metadata matches Some(m) ==> known_lengths(files.push(file)) == known_lengths(
            files,
        ).push(m.length),
        file.metadata is None ==> known_lengths(files.push(file)) == known_lengths(files),
{
    assert(lengths.push(length).drop_last() =~= lengths);
    assert(files.push(file).drop_last() =~= files);
}

// Wildcards.

/// Whether a text means itself in a regular expression.
pub open spec fn plain_pattern(s: Seq<char>) -> bool {
    forall|i: int|
        0 <= i < s.len() ==> {
            let c = #[trigger] s[i];
            &&& c != '\\' && c != '.' && c != '+' && c != '*' && c != '?' && c != '(' && c != ')'
            &&& c != '|' && c != '[' && c != ']' && c != '{' && c != '}' && c != '^' && c != '$'
            &&& c != '#' && c != '&' && c != '-' && c != '~'
        }
}

proof fn lemma_escaped_sum(a: Seq<char>, b: Seq<char>)
    ensures
        regex_escaped(a + b) == regex_escaped(a) + regex_escaped(b),
    decreases b.len(),
{
    if b.len() == 0 {
        assert(a + b =~= a);
        assert(regex_escaped(a) + regex_escaped(b) =~= regex_escaped(a));
    } else {
        assert((a + b).drop_last() =~= a + b.drop_last());
        assert((a + b).last() == b.last());
        lemma_escaped_sum(a, b.drop_last());
        assert(regex_escaped(a + b) =~= regex_escaped(a) + regex_escaped(b));
    }
}

proof fn lemma_escaped_plain(s: Seq<char>)
    requires
        plain_pattern(s),
    ensures
        regex_escaped(s) == s,
    decreases s.len(),
{
    if s.len() > 0 {
        assert(plain_pattern(s.drop_last())) by {
            assert forall|i: int| 0 <= i < s.drop_last().len() implies s.drop_last()[i]
                == s[i] by {}
        }
        lemma_escaped_plain(s.drop_last());
        assert(s[s.len() - 1] == s.last());
        assert(s.drop_last() + seq![s.last()] =~= s);
    }
}

#[verifier::rlimit(40)]
proof fn lemma_replaced_behind(a: Seq<char>, rest: Seq<char>, from: Seq<char>, to: Seq<char>)
    requires
        from.len() > 0,
        from[0] == '\\',
        !a.contains('\\'),
    ensures
        replaced(a + rest, from, to) == a + replaced(rest, from, to),
    decreases a.len(),
{
    let s = a + rest;
    if a.len() == 0 {
        assert(s =~= rest);
        assert(a + replaced(rest, from, to) =~= replaced(rest, from, to));
    } else {
        assert(a.contains(a[0]));
        assert(s[0] == a[0]);
        assert(!crate::text::occurs_at(s, from, 0)) by {
            if crate::text::occurs_at(s, from, 0) {
                assert(s.subrange(0, from.len() as int)[0] == s[0]);
            }
        }
        assert(s.skip(1) =~= a.skip(1) + rest);
        assert(!a.skip(1).contains('\\')) by {
            if a.skip(1).contains('\\') {
                let i = a.skip(1).index_of('\\');
                assert(a[i + 1] == '\\');
            }
        }
        lemma_replaced_behind(a.skip(1), rest, from, to);
        assert(seq![s[0]] + (a.skip(1) + replaced(rest, from, to)) =~= a + replaced(
            rest,
            from,
            to,
        ));
    }
}

proof fn lemma_replaced_once(a: Seq<char>, from: Seq<char>, to: Seq<char>, b: Seq<char>)
    requires
        from.len() > 0,
        from[0] == '\\',
        !a.contains('\\'),
        !b.contains('\\'),
    ensures
        replaced(a + from + b, from, to) == a + to + b,
        replaced(a, from, to) == a,
{
    let e = Seq::<char>::empty();
    let rest = from + b;
    assert(a + from + b =~= a + rest);
    lemma_replaced_behind(a, rest, from, to);
    assert(rest.subrange(0, from.len() as int) =~= from);
    assert(rest.skip(from.len() as int) =~= b);
    lemma_replaced_behind(b, e, from, to);
    assert(b + e =~= b);
    assert(replaced(e, from, to) =~= e);
    lemma_replaced_behind(a, e, from, to);
    assert(a + e =~= a);
    assert(a + (to + b) =~= a + to + b);
}

/// A wildcard stands for the whole text in any case: a star in it for any
/// text, a question mark for any character, and the rest for itself.
#[verifier::rlimit(40)]
pub proof fn law_wildcard(a: Seq<char>, b: Seq<char>, value: Seq<char>)
    requires
        plain_pattern(a),
        plain_pattern(b),
    ensures
        wildcard_matches(value, a) <==> accepted_match("(?i)^"@ + a + "$"@, value),
        wildcard_matches(value, a + seq!['*'] + b) <==> accepted_match(
            "(?i)^"@ + a + ".*"@ + b + "$"@,
            value,
        ),
        wildcard_matches(value, a + seq!['?'] + b) <==> accepted_match(
            "(?i)^"@ + a + "."@ + b + "$"@,
            value,
        ),
        wildcard_matches(value, a + seq!['.'] + b) <==> accepted_match(
            "(?i)^"@ + a + seq!['\\', '.'] + b + "$"@,
            value,
        ),
{
    reveal_strlit("\\*");
    reveal_strlit("\\?");
    reveal_strlit(".*");
    reveal_strlit(".");
    lemma_escaped_plain(a);
    lemma_escaped_plain(b);
    lemma_no_backslash(a);
    lemma_no_backslash(b);
    let star = seq!['\\', '*'];
    let mark = seq!['\\', '?'];
    let dot = seq!['\\', '.'];
    assert("\\*"@ =~= star);
    assert("\\?"@ =~= mark);
    assert(seq!['*'].drop_last() =~= Seq::<char>::empty());
    assert(seq!['?'].drop_last() =~= Seq::<char>::empty());
    assert(seq!['.'].drop_last() =~= Seq::<char>::empty());
    reveal_with_fuel(regex_escaped, 2);
    assert(regex_escaped(seq!['*']) =~= star);
    assert(regex_escaped(seq!['?']) =~= mark);
    assert(regex_escaped(seq!['.']) =~= dot);
    lemma_escaped_sum(a, seq!['*']);
    lemma_escaped_sum(a + seq!['*'], b);
    lemma_escaped_sum(a, seq!['?']);
    lemma_escaped_sum(a + seq!['?'], b);
    lemma_escaped_sum(a, seq!['.']);
    lemma_escaped_sum(a + seq!['.'], b);
    lemma_replaced_once(a, star, ".*"@, b);
    lemma_replaced_once(a, mark, "."@, b);
    let starred = a + ".*"@ + b;
    lemma_no_backslash_sum(a, ".*"@, b);
    lemma_replaced_once(starred, mark, "."@, b);
    assert("(?i)^"@ + starred + "$"@ =~= "(?i)^"@ + a + ".*"@ + b + "$"@);
    lemma_other_sign(a, mark, star, ".*"@, b);
    assert("(?i)^"@ + (a + "."@ + b) + "$"@ =~= "(?i)^"@ + a + "."@ + b + "$"@);
    lemma_other_sign(a, dot, star, ".*"@, b);
    lemma_other_sign(a, dot, mark, "."@, b);
    assert("(?i)^"@ + (a + dot + b) + "$"@ =~= "(?i)^"@ + a + dot + b + "$"@);
}

proof fn lemma_no_backslash(a: Seq<char>)
    requires
        plain_pattern(a),
    ensures
        !a.contains('\\'),
{
    if a.contains('\\') {
        let i = a.index_of('\\');
        assert(a[i] == '\\');
    }
}

proof fn lemma_no_backslash_sum(a: Seq<char>, m: Seq<char>, b: Seq<char>)
    requires
        !a.contains('\\'),
        !b.contains('\\'),
        m == ".*"@,
    ensures
        !(a + m + b).contains('\\'),
{
    reveal_strlit(".*");
    let s = a + m + b;
    if s.contains('\\') {
        let i = s.index_of('\\');
        if i < a.len() {
            assert(a[i] == '\\');
        } else if i >= a.len() + m.len() {
            assert(b[i - a.len() - m.len()] == '\\');
        } else {
            assert(m[i - a.len()] == '\\');
        }
    }
}

proof fn lemma_other_sign(
    a: Seq<char>,
    there: Seq<char>,
    from: Seq<char>,
    to: Seq<char>,
    b: Seq<char>,
)
    requires
        there.len() == 2 && from.len() == 2,
        there[0] == '\\' && from[0] == '\\',
        there[1] != from[1],
        there[1] != '\\',
        !a.contains('\\'),
        !b.contains('\\'),
    ensures
        replaced(a + there + b, from, to) == a + there + b,
{
    let e = Seq::<char>::empty();
    let rest = there + b;
    assert(a + there + b =~= a + rest);
    lemma_replaced_behind(a, rest, from, to);
    assert(!crate::text::occurs_at(rest, from, 0)) by {
        if crate::text::occurs_at(rest, from, 0) {
            assert(rest.subrange(0, 2)[1] == rest[1]);
        }
    }
    let tail = seq![there[1]] + b;
    assert(rest.skip(1) =~= tail);
    assert(!tail.contains('\\')) by {
        if tail.contains('\\') {
            let i = tail.index_of('\\');
            if i > 0 {
                assert(b[i - 1] == '\\');
            }
        }
    }
    lemma_replaced_behind(tail, e, from, to);
    assert(tail + e =~= tail);
    assert(replaced(e, from, to) =~= e);
    assert(seq![rest[0]] + tail =~= rest);
}

// Trees.

/// A search takes what it finds in a file up to the limit, passes over what is
/// neither a file nor a directory, and fails where it cannot go on: at a
/// directory that is not listed, and at a place that was asked for and is not
/// there. With enough found it looks no further.
pub proof fn law_tree_search<R>(
    path: Seq<char>,
    text: Seq<char>,
    message: Seq<char>,
    required: bool,
    limit: nat,
    search: spec_fn(Seq<char>, Seq<char>) -> Seq<R>,
    found: Seq<R>,
)
    ensures
        found.len() < limit ==> {
            let more = found + search(path, text);
            &&& more.len() <= limit ==> search_tree(
                FileTree::File { path, text },
                required,
                limit,
                search,
                found,
            ) == (more, None::<Seq<char>>)
            &&& more.len() > limit ==> search_tree(
                FileTree::File { path, text },
                required,
                limit,
                search,
                found,
            ) == (more.take(limit as int), None::<Seq<char>>)
            &&& search_tree(FileTree::Missing { path }, true, limit, search, found) == (
                found,
                Some("grep context root does not exist: "@ + path),
            )
            &&& search_tree(FileTree::Missing { path }, false, limit, search, found) == (
                found,
                None::<Seq<char>>,
            )
            &&& search_tree(FileTree::Other { path }, required, limit, search, found) == (
                found,
                None::<Seq<char>>,
            )
            &&& search_tree(FileTree::Unlisted { path, message }, required, limit, search, found)
                == (found, Some(message))
        },
        found.len() >= limit ==> search_tree(
            FileTree::Unlisted { path, message },
            required,
            limit,
            search,
            found,
        ) == (found, None::<Seq<char>>),
{
}

} // verus!
