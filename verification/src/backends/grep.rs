//! Content search.
#![verifier::loop_isolation(false)]

use crate::case::{lowered, to_lowercase};
use crate::error::BackendError;
use crate::number::{decimal, push_decimal};
use crate::patterns::{any_case, compile, in_any_case, regex_compiles, regex_matches};
use crate::split::{join, joined, lines, lines_of};
use crate::text::{contains, has_text, owned, push_item};
use vstd::prelude::*;
use vstd::string::*;

verus! {

/// A search for lines.
#[derive(Debug, Clone, PartialEq, Eq)]
pub struct GrepQuery {
    pub roots: Vec<String>,
    pub pattern: String,
    pub case_sensitive: bool,
    pub simple_match: bool,
    pub limit: usize,
}

/// The contents of a search for lines.
#[verifier::ext_equal]
pub ghost struct GrepQueryView {
    pub roots: Seq<Seq<char>>,
    pub pattern: Seq<char>,
    pub case_sensitive: bool,
    pub simple_match: bool,
    pub limit: usize,
}

impl DeepView for GrepQuery {
    type V = GrepQueryView;

    open spec fn deep_view(&self) -> GrepQueryView {
        GrepQueryView {
            roots: self.roots.deep_view(),
            pattern: self.pattern@,
            case_sensitive: self.case_sensitive,
            simple_match: self.simple_match,
            limit: self.limit,
        }
    }
}

/// A search for lines with the lines around them.
#[derive(Debug, Clone, PartialEq, Eq)]
pub struct GrepContextQuery {
    pub roots: Vec<String>,
    pub pattern: String,
    pub before: usize,
    pub after: usize,
    pub case_sensitive: bool,
    pub simple_match: bool,
    pub limit: usize,
}

/// The contents of a search with context.
#[verifier::ext_equal]
pub ghost struct GrepContextQueryView {
    pub roots: Seq<Seq<char>>,
    pub pattern: Seq<char>,
    pub before: usize,
    pub after: usize,
    pub case_sensitive: bool,
    pub simple_match: bool,
    pub limit: usize,
}

impl DeepView for GrepContextQuery {
    type V = GrepContextQueryView;

    open spec fn deep_view(&self) -> GrepContextQueryView {
        GrepContextQueryView {
            roots: self.roots.deep_view(),
            pattern: self.pattern@,
            before: self.before,
            after: self.after,
            case_sensitive: self.case_sensitive,
            simple_match: self.simple_match,
            limit: self.limit,
        }
    }
}

/// A line that matches.
#[derive(Debug, Clone, PartialEq, Eq)]
pub struct GrepMatch {
    pub path: String,
    pub line_number: usize,
    pub line: String,
}

/// The contents of a match.
#[verifier::ext_equal]
pub ghost struct MatchView {
    pub path: Seq<char>,
    pub line_number: nat,
    pub line: Seq<char>,
}

impl DeepView for GrepMatch {
    type V = MatchView;

    open spec fn deep_view(&self) -> MatchView {
        MatchView {
            path: self.path@,
            line_number: self.line_number as nat,
            line: self.line@,
        }
    }
}

/// A match on one line: the path, the line number and the line.
pub open spec fn tool_text(m: MatchView) -> Seq<char> {
    m.path + ":"@ + decimal(m.line_number) + ":"@ + m.line
}

impl GrepMatch {
    /// The match on one line.
    pub fn to_tool_text(&self) -> (r: String)
        ensures
            r@ == tool_text(self.deep_view()),
    {
        let mut out = self.path.clone();
        out.append(":");
        push_decimal(&mut out, self.line_number as u128);
        out.append(":");
        out.append(self.line.as_str());
        out
    }
}

// Lines.

/// Whether a text holds another, in any case or in the same.
pub open spec fn holds_text(line: Seq<char>, pattern: Seq<char>, case_sensitive: bool) -> bool {
    if case_sensitive {
        has_text(line, pattern)
    } else {
        has_text(lowered(line), lowered(pattern))
    }
}

fn contains_text(line: &str, pattern: &str, case_sensitive: bool) -> (r: bool)
    ensures
        r == holds_text(line@, pattern@, case_sensitive),
{
    if case_sensitive {
        contains(line, pattern)
    } else {
        contains(to_lowercase(line).as_str(), to_lowercase(pattern).as_str())
    }
}

/// Whether a line matches a query: it holds the pattern.
pub fn line_matches(line: &str, query: &GrepQuery) -> (r: bool)
    ensures
        r == holds_text(line@, query.pattern@, query.case_sensitive),
{
    contains_text(line, query.pattern.as_str(), query.case_sensitive)
}

/// The lines of a file that match, in order.
pub open spec fn matches_in(path: Seq<char>, lines: Seq<Seq<char>>, query: GrepQueryView) -> Seq<
    MatchView,
>
    decreases lines.len(),
{
    if lines.len() == 0 {
        Seq::empty()
    } else {
        let before = matches_in(path, lines.drop_last(), query);
        if holds_text(lines.last(), query.pattern, query.case_sensitive) {
            before.push(MatchView { path, line_number: lines.len(), line: lines.last() })
        } else {
            before
        }
    }
}

/// The first items, at most `n`.
pub open spec fn at_most<A>(s: Seq<A>, n: nat) -> Seq<A> {
    if s.len() > n {
        s.take(n as int)
    } else {
        s
    }
}

proof fn lemma_matches_grow(path: Seq<char>, lines: Seq<Seq<char>>, query: GrepQueryView, n: int)
    requires
        0 <= n <= lines.len(),
    ensures
        matches_in(path, lines.take(n), query).len() <= matches_in(path, lines, query).len(),
        matches_in(path, lines, query).take(
            matches_in(path, lines.take(n), query).len() as int,
        ) == matches_in(path, lines.take(n), query),
    decreases lines.len() - n,
{
    let short = matches_in(path, lines.take(n), query);
    if n == lines.len() {
        assert(lines.take(n) =~= lines);
        assert(short.take(short.len() as int) =~= short);
    } else {
        lemma_matches_grow(path, lines, query, n + 1);
        assert(lines.take(n + 1).drop_last() =~= lines.take(n));
        let middle = matches_in(path, lines.take(n + 1), query);
        let all = matches_in(path, lines, query);
        assert(all.take(short.len() as int) =~= short) by {
            assert forall|j: int| 0 <= j < short.len() implies all[j] == short[j] by {
                assert(all.take(middle.len() as int)[j] == middle[j]);
            }
        }
    }
}

/// Adds the matching lines of a file, until there are as many as are wanted.
pub fn search_file(path: &str, text: &str, query: &GrepQuery, matches: &mut Vec<GrepMatch>)
    requires
        old(matches).len() <= query.limit,
    ensures
        final(matches).deep_view() == at_most(
            old(matches).deep_view() + matches_in(path@, lines_of(text@), query.deep_view()),
            query.limit as nat,
        ),
        final(matches).len() <= query.limit,
{
    let all = lines(text);
    let ghost view = all.deep_view();
    let ghost q = query.deep_view();
    let ghost before = matches.deep_view();
    let mut i: usize = 0;
    assert(before + matches_in(path@, view.take(0), q) =~= before);
    while i < all.len() && matches.len() < query.limit
        invariant
            i <= all.len(),
            matches.len() <= query.limit,
            matches.deep_view() == before + matches_in(path@, view.take(i as int), q),
        decreases all.len() - i,
    {
        proof {
            assert(view.take(i + 1).drop_last() =~= view.take(i as int));
            assert(view.take(i + 1).last() == all[i as int]@);
        }
        let ghost so_far = matches.deep_view();
        if line_matches(all[i].as_str(), query) {
            push_item(
                matches,
                GrepMatch { path: owned(path), line_number: i + 1, line: all[i].clone() },
            );
        }
        i += 1;
        assert(matches.deep_view() =~= before + matches_in(path@, view.take(i as int), q));
    }
    proof {
        let found = matches_in(path@, view, q);
        let part = matches_in(path@, view.take(i as int), q);
        lemma_matches_grow(path@, view, q, i as int);
        if i == all.len() {
            assert(view.take(i as int) =~= view);
        } else {
            assert(matches.len() == query.limit);
            assert((before + found).take(query.limit as int) =~= before + part) by {
                assert forall|j: int| 0 <= j < query.limit implies (before + found)[j] == (before
                    + part)[j] by {
                    if j >= before.len() {
                        assert(found.take(part.len() as int)[j - before.len()] == part[j
                            - before.len()]);
                    }
                }
            }
        }
        if (before + found).len() == query.limit {
            assert((before + found).take(query.limit as int) =~= before + found);
        }
    }
}

// Context.

/// The regular expression of a query with context.
pub open spec fn context_pattern(query: GrepContextQueryView) -> Seq<char> {
    if query.case_sensitive {
        query.pattern
    } else {
        any_case(query.pattern)
    }
}

/// Whether a query with context can be run: it looks for a text, or its
/// pattern is accepted.
pub open spec fn searchable(query: GrepContextQueryView) -> bool {
    query.simple_match || regex_compiles(context_pattern(query))
}

/// Whether a line matches a query with context.
pub open spec fn context_matches(query: GrepContextQueryView, line: Seq<char>) -> bool {
    if query.simple_match {
        holds_text(line, query.pattern, query.case_sensitive)
    } else {
        regex_matches(context_pattern(query), line)
    }
}

/// Whether each line matches.
pub open spec fn verdicts_on(query: GrepContextQueryView, lines: Seq<Seq<char>>) -> Seq<bool> {
    lines.map_values(|line: Seq<char>| context_matches(query, line))
}

fn pattern_for(query: &GrepContextQuery) -> (r: String)
    ensures
        r@ == context_pattern(query.deep_view()),
{
    if query.case_sensitive {
        query.pattern.clone()
    } else {
        in_any_case(query.pattern.as_str())
    }
}

/// Checks that a query with context can be run. The wording of the error is
/// that of the regular expressions.
pub fn check_context_query(query: &GrepContextQuery) -> (r: Result<(), BackendError>)
    ensures
        r is Ok <==> searchable(query.deep_view()),
{
    if query.simple_match {
        return Ok(());
    }
    match compile(pattern_for(query).as_str()) {
        Ok(_) => Ok(()),
        Err(message) => Err(BackendError { message }),
    }
}

/// Tells for each line whether it matches; nothing where the query cannot be
/// run.
pub fn match_lines(query: &GrepContextQuery, lines: &Vec<String>) -> (r: Option<Vec<bool>>)
    ensures
        match r {
            Some(verdicts) => searchable(query.deep_view()) && verdicts@ == verdicts_on(
                query.deep_view(),
                lines.deep_view(),
            ),
            None => !searchable(query.deep_view()),
        },
{
    let ghost q = query.deep_view();
    let ghost view = lines.deep_view();
    let ghost all = verdicts_on(q, view);
    let mut verdicts: Vec<bool> = Vec::new();
    let mut i: usize = 0;
    if query.simple_match {
        while i < lines.len()
            invariant
                i <= lines.len(),
                verdicts@ =~= all.take(i as int),
            decreases lines.len() - i,
        {
            assert(view[i as int] == lines[i as int]@);
            verdicts.push(
                contains_text(lines[i].as_str(), query.pattern.as_str(), query.case_sensitive),
            );
            i += 1;
        }
        assert(all.take(i as int) =~= all);
        return Some(verdicts);
    }
    let pattern = pattern_for(query);
    match compile(pattern.as_str()) {
        Ok(f) => {
            while i < lines.len()
                invariant
                    i <= lines.len(),
                    verdicts@ =~= all.take(i as int),
                decreases lines.len() - i,
            {
                assert(view[i as int] == lines[i as int]@);
                let line: &str = lines[i].as_str();
                let verdict = f(line);
                verdicts.push(verdict);
                i += 1;
            }
            assert(all.take(i as int) =~= all);
            Some(verdicts)
        },
        Err(_) => None,
    }
}

/// What a line in the block of the match at `index` is.
pub open spec fn line_role(i: int, index: int) -> Seq<char> {
    if i == index {
        "match"@
    } else if i < index {
        "before"@
    } else {
        "after"@
    }
}

/// Line `i` in the block of the match at `index`.
pub open spec fn block_line(path: Seq<char>, lines: Seq<Seq<char>>, i: int, index: int) -> Seq<
    char,
> {
    path + ":L"@ + decimal((i + 1) as nat) + ":"@ + line_role(i, index) + ": "@ + lines[i]
}

/// Where the block of the match at `index` starts.
pub open spec fn block_start(query: GrepContextQueryView, index: int) -> int {
    if query.before > index {
        0
    } else {
        index - query.before
    }
}

/// Where the block of the match at `index` ends.
pub open spec fn block_end(query: GrepContextQueryView, lines: Seq<Seq<char>>, index: int) -> int {
    if index + query.after + 1 > lines.len() {
        lines.len() as int
    } else {
        index + query.after + 1
    }
}

/// The block of the match at `index`: the lines around it, as many as are
/// asked for and there are.
pub open spec fn block_at(
    path: Seq<char>,
    lines: Seq<Seq<char>>,
    query: GrepContextQueryView,
    index: int,
) -> Seq<char> {
    let start = block_start(query, index);
    let end = block_end(query, lines, index);
    joined(
        Seq::new((end - start) as nat, |k: int| block_line(path, lines, start + k, index)),
        "\n"@,
    )
}

/// The blocks of the matches among the first `n` lines.
pub open spec fn blocks_in(
    path: Seq<char>,
    lines: Seq<Seq<char>>,
    query: GrepContextQueryView,
    verdicts: Seq<bool>,
    n: nat,
) -> Seq<Seq<char>>
    decreases n,
{
    if n == 0 {
        Seq::empty()
    } else {
        let before = blocks_in(path, lines, query, verdicts, (n - 1) as nat);
        if verdicts[n - 1] {
            before.push(block_at(path, lines, query, n - 1))
        } else {
            before
        }
    }
}

fn make_block(path: &str, lines: &Vec<String>, query: &GrepContextQuery, index: usize) -> (r:
    String)
    requires
        index < lines.len(),
    ensures
        r@ == block_at(path@, lines.deep_view(), query.deep_view(), index as int),
{
    let ghost view = lines.deep_view();
    let ghost q = query.deep_view();
    let start: usize = if query.before > index {
        0
    } else {
        index - query.before
    };
    let end: usize = if query.after >= lines.len() - index {
        lines.len()
    } else {
        index + query.after + 1
    };
    assert(start == block_start(q, index as int));
    assert(end == block_end(q, view, index as int));
    let ghost all = Seq::new(
        (end - start) as nat,
        |k: int| block_line(path@, view, start + k, index as int),
    );
    let mut block: Vec<String> = Vec::new();
    let mut i: usize = start;
    assert(block.deep_view() =~= all.take(0));
    while i < end
        invariant
            start <= i <= end <= lines.len(),
            block.deep_view() == all.take(i - start),
        decreases end - i,
    {
        assert(view[i as int] == lines[i as int]@);
        let role = if i == index {
            "match"
        } else if i < index {
            "before"
        } else {
            "after"
        };
        let mut line = owned(path);
        line.append(":L");
        push_decimal(&mut line, i as u128 + 1);
        line.append(":");
        line.append(role);
        line.append(": ");
        line.append(lines[i].as_str());
        assert(line@ =~= block_line(path@, view, i as int, index as int));
        push_item(&mut block, line);
        i += 1;
        assert(block.deep_view() =~= all.take(i - start));
    }
    assert(all.take(i - start) =~= all);
    assert(all =~= Seq::new(
        (block_end(q, view, index as int) - block_start(q, index as int)) as nat,
        |k: int| block_line(path@, view, block_start(q, index as int) + k, index as int),
    ));
    join(&block, "\n")
}

proof fn lemma_blocks_grow(
    path: Seq<char>,
    lines: Seq<Seq<char>>,
    query: GrepContextQueryView,
    verdicts: Seq<bool>,
    n: nat,
    m: nat,
)
    requires
        n <= m,
    ensures
        blocks_in(path, lines, query, verdicts, n).len() <= blocks_in(
            path,
            lines,
            query,
            verdicts,
            m,
        ).len(),
        blocks_in(path, lines, query, verdicts, m).take(
            blocks_in(path, lines, query, verdicts, n).len() as int,
        ) == blocks_in(path, lines, query, verdicts, n),
    decreases m - n,
{
    let short = blocks_in(path, lines, query, verdicts, n);
    if n == m {
        assert(short.take(short.len() as int) =~= short);
    } else {
        lemma_blocks_grow(path, lines, query, verdicts, n, (m - 1) as nat);
        let middle = blocks_in(path, lines, query, verdicts, (m - 1) as nat);
        let all = blocks_in(path, lines, query, verdicts, m);
        assert(all.take(short.len() as int) =~= short) by {
            assert forall|j: int| 0 <= j < short.len() implies all[j] == short[j] by {
                assert(middle.take(short.len() as int)[j] == short[j]);
            }
        }
    }
}

/// Adds the blocks of a file, given which of its lines match, until there
/// are as many as are wanted.
pub fn add_blocks(
    path: &str,
    lines: &Vec<String>,
    query: &GrepContextQuery,
    verdicts: &Vec<bool>,
    blocks: &mut Vec<String>,
)
    requires
        verdicts.len() == lines.len(),
        old(blocks).len() <= query.limit,
    ensures
        final(blocks).deep_view() == at_most(
            old(blocks).deep_view() + blocks_in(
                path@,
                lines.deep_view(),
                query.deep_view(),
                verdicts@,
                lines.len() as nat,
            ),
            query.limit as nat,
        ),
        final(blocks).len() <= query.limit,
{
    let ghost view = lines.deep_view();
    let ghost q = query.deep_view();
    let ghost before = blocks.deep_view();
    let mut i: usize = 0;
    assert(before + blocks_in(path@, view, q, verdicts@, 0) =~= before);
    while i < lines.len() && blocks.len() < query.limit
        invariant
            i <= lines.len(),
            blocks.len() <= query.limit,
            blocks.deep_view() == before + blocks_in(path@, view, q, verdicts@, i as nat),
        decreases lines.len() - i,
    {
        if verdicts[i] {
            push_item(blocks, make_block(path, lines, query, i));
        }
        i += 1;
        assert(blocks.deep_view() =~= before + blocks_in(path@, view, q, verdicts@, i as nat));
    }
    proof {
        let found = blocks_in(path@, view, q, verdicts@, lines.len() as nat);
        let part = blocks_in(path@, view, q, verdicts@, i as nat);
        lemma_blocks_grow(path@, view, q, verdicts@, i as nat, lines.len() as nat);
        if i < lines.len() {
            assert(blocks.len() == query.limit);
            assert((before + found).take(query.limit as int) =~= before + part) by {
                assert forall|j: int| 0 <= j < query.limit implies (before + found)[j] == (before
                    + part)[j] by {
                    if j >= before.len() {
                        assert(found.take(part.len() as int)[j - before.len()] == part[j
                            - before.len()]);
                    }
                }
            }
        }
        if (before + found).len() == query.limit {
            assert((before + found).take(query.limit as int) =~= before + found);
        }
    }
}

} // verus!
