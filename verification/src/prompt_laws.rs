//! What holds of all prompts: which values are looked up, and what the context
//! that is added says of them.
use crate::backends::everything::FindQueryView;
use crate::backends::laws::{alike_texts, lemma_alike_texts};
use crate::number::decimal;
use crate::prompt_enrichment::{
    already_found, cap_note, capped_lines, context_lines, context_of, detect_from, detected,
    enriched, group_heading, group_notes, groups_for, hyphen_place, lemma_utf8_concat, lookup_notes,
    references_from, selected, total_of, uuid_at, value_query, with_line, GroupView, ReferenceTotal,
    ReferencesView,
};
use crate::split::{joined, utf8_len};
use crate::text_laws::law_joined;
use vstd::prelude::*;
use vstd::string::*;

verus! {

// Values.

/// The hexadecimal digits.
pub open spec fn hex(c: char) -> bool {
    ('0' <= c && c <= '9') || ('a' <= c && c <= 'f') || ('A' <= c && c <= 'F')
}

/// Whether a text is made of so many hexadecimal digits.
pub open spec fn hex_text(s: Seq<char>, n: nat) -> bool {
    s.len() == n && forall|i: int| 0 <= i < n ==> hex(#[trigger] s[i])
}

/// Whether a text is a UUID: groups of 8, 4, 4, 4 and 12 hexadecimal digits
/// with hyphens between them.
pub open spec fn uuid_text(v: Seq<char>) -> bool {
    &&& v.len() == 36
    &&& hex_text(v.subrange(0, 8), 8)
    &&& v[8] == '-'
    &&& hex_text(v.subrange(9, 13), 4)
    &&& v[13] == '-'
    &&& hex_text(v.subrange(14, 18), 4)
    &&& v[18] == '-'
    &&& hex_text(v.subrange(19, 23), 4)
    &&& v[23] == '-'
    &&& hex_text(v.subrange(24, 36), 12)
}

/// Whether a text may stand next to a UUID on the left: it does not end in a
/// hexadecimal digit or a hyphen.
pub open spec fn ends_apart(s: Seq<char>) -> bool {
    s.len() > 0 ==> !hex(s.last()) && s.last() != '-'
}

/// Whether a text may stand next to a UUID on the right.
pub open spec fn starts_apart(s: Seq<char>) -> bool {
    s.len() > 0 ==> !hex(s[0]) && s[0] != '-'
}

proof fn lemma_uuid(v: Seq<char>, k: int)
    requires
        uuid_text(v),
        0 <= k < 36,
    ensures
        v[k] == '-' <==> hyphen_place(k),
        !hyphen_place(k) ==> hex(v[k]),
{
    if k < 8 {
        assert(hex(v.subrange(0, 8)[k]));
    } else if 8 < k < 13 {
        assert(hex(v.subrange(9, 13)[k - 9]));
    } else if 13 < k < 18 {
        assert(hex(v.subrange(14, 18)[k - 14]));
    } else if 18 < k < 23 {
        assert(hex(v.subrange(19, 23)[k - 19]));
    } else if 23 < k {
        assert(hex(v.subrange(24, 36)[k - 24]));
    }
}

proof fn lemma_gap(
    pre: Seq<char>,
    gap: Seq<char>,
    v: Seq<char>,
    rest: Seq<char>,
    at: int,
    values: Seq<Seq<char>>,
)
    requires
        uuid_text(v),
        !gap.contains('-'),
        0 <= at <= gap.len(),
    ensures
        ({
            let s = pre + gap + v + rest;
            detect_from(s, pre.len() + at, values) == detect_from(
                s,
                (pre.len() + gap.len()) as int,
                values,
            )
        }),
    decreases gap.len() - at,
{
    let s = pre + gap + v + rest;
    if at < gap.len() {
        let i = pre.len() + at;
        let j = at + 8;
        assert(s[i + 8] != '-') by {
            if j < gap.len() {
                assert(s[i + 8] == gap[j]);
                assert(gap.contains(gap[j]));
            } else {
                assert(s[i + 8] == v[j - gap.len()]);
                lemma_uuid(v, j - gap.len());
            }
        }
        assert(hyphen_place(8));
        assert(!uuid_at(s, i));
        lemma_gap(pre, gap, v, rest, at + 1, values);
    }
}

/// A UUID that stands apart, with no hyphen between it and what was read
/// before, is taken, but where it was taken before, in any case, or where five
/// others were; one that does not stand apart is passed over.
pub proof fn law_next_value(
    pre: Seq<char>,
    gap: Seq<char>,
    v: Seq<char>,
    rest: Seq<char>,
    values: Seq<Seq<char>>,
)
    requires
        uuid_text(v),
        !gap.contains('-'),
        gap.len() == 0 ==> pre.len() == 0,
    ensures
        ({
            let s = pre + gap + v + rest;
            let from = pre.len() as int;
            let behind = (pre.len() + gap.len() + 36) as int;
            let apart = ends_apart(gap) && starts_apart(rest);
            let taken = exists|j: int| 0 <= j < values.len() && alike_texts(values[j], v);
            &&& !apart || taken ==> detect_from(s, from, values) == detect_from(s, behind, values)
            &&& apart && !taken && values.len() < 5 ==> detect_from(s, from, values) == detect_from(
                s,
                behind,
                values.push(v),
            )
            &&& apart && !taken && values.len() >= 5 ==> detect_from(s, from, values) == (
                values,
                true,
            )
        }),
{
    let s = pre + gap + v + rest;
    let i = (pre.len() + gap.len()) as int;
    lemma_gap(pre, gap, v, rest, 0, values);
    assert forall|k: int| 0 <= k < 36 implies if hyphen_place(k) {
        #[trigger] s[i + k] == '-'
    } else {
        crate::prompt_enrichment::hex_digit(s[i + k])
    } by {
        assert(s[i + k] == v[k]);
        lemma_uuid(v, k);
    }
    assert(uuid_at(s, i));
    assert(s.subrange(i, i + 36) =~= v);
    if i > 0 {
        assert(s[i - 1] == gap.last());
    }
    if rest.len() > 0 {
        assert(s[i + 36] == rest[0]);
    }
    assert(already_found(values, v) <==> exists|j: int|
        0 <= j < values.len() && alike_texts(values[j], v)) by {
        if already_found(values, v) {
            let j = choose|j: int|
                0 <= j < values.len() && crate::case::same_ignoring_case(
                    #[trigger] values[j],
                    v,
                );
            lemma_alike_texts(values[j], v);
            assert(alike_texts(values[j], v));
        }
        if exists|j: int| 0 <= j < values.len() && alike_texts(values[j], v) {
            let j = choose|j: int| 0 <= j < values.len() && alike_texts(values[j], v);
            lemma_alike_texts(values[j], v);
        }
    }
}

proof fn lemma_no_more(s: Seq<char>, i: int, values: Seq<Seq<char>>)
    requires
        0 <= i,
        forall|k: int| i <= k < s.len() ==> #[trigger] s[k] != '-',
    ensures
        detect_from(s, i, values) == (values, false),
    decreases s.len() - i,
{
    if i + 36 <= s.len() {
        assert(hyphen_place(8));
        assert(s[i + 8] != '-');
        lemma_no_more(s, i + 1, values);
    }
}

/// A text without hyphens holds no value.
pub proof fn law_no_value(s: Seq<char>)
    requires
        !s.contains('-'),
    ensures
        detected(s) == (Seq::<Seq<char>>::empty(), false),
{
    assert forall|k: int| 0 <= k < s.len() implies #[trigger] s[k] != '-' by {
        assert(s.contains(s[k]));
    }
    lemma_no_more(s, 0, Seq::empty());
}

/// A UUID in a text without other hyphens is found just where it stands apart.
pub proof fn law_one_value(p: Seq<char>, v: Seq<char>, q: Seq<char>)
    requires
        uuid_text(v),
        !p.contains('-'),
        !q.contains('-'),
    ensures
        detected(p + v + q) == (
            if ends_apart(p) && starts_apart(q) {
                seq![v]
            } else {
                Seq::empty()
            },
            false,
        ),
{
    let e = Seq::<char>::empty();
    let none = Seq::<Seq<char>>::empty();
    let s = p + v + q;
    assert(e + p + v + q =~= s);
    law_next_value(e, p, v, q, none);
    assert(none.push(v) =~= seq![v]);
    let i = (p.len() + 36) as int;
    assert forall|k: int| i <= k < s.len() implies #[trigger] s[k] != '-' by {
        assert(s[k] == q[k - i]);
        assert(q.contains(q[k - i]));
    }
    lemma_no_more(s, i, none);
    lemma_no_more(s, i, seq![v]);
}

/// Of two UUIDs both are found, in order, but where they are the same in any
/// case: then the first is.
pub proof fn law_two_values(p: Seq<char>, v: Seq<char>, m: Seq<char>, w: Seq<char>, q: Seq<char>)
    requires
        uuid_text(v) && uuid_text(w),
        !p.contains('-') && !m.contains('-') && !q.contains('-'),
        ends_apart(p) && starts_apart(q),
        m.len() > 0 && starts_apart(m) && ends_apart(m),
    ensures
        detected(p + v + m + w + q) == (
            if alike_texts(v, w) {
                seq![v]
            } else {
                seq![v, w]
            },
            false,
        ),
{
    let e = Seq::<char>::empty();
    let none = Seq::<Seq<char>>::empty();
    let s = p + v + m + w + q;
    let one = seq![v];
    assert(e + p + v + (m + w + q) =~= s);
    assert((m + w + q)[0] == m[0]);
    law_next_value(e, p, v, m + w + q, none);
    assert(none.push(v) =~= one);
    assert((p + v) + m + w + q =~= s);
    law_next_value(p + v, m, w, q, one);
    assert(alike_texts(v, w) <==> exists|j: int| 0 <= j < one.len() && alike_texts(one[j], w)) by {
        assert(one[0] == v);
    }
    assert(one.push(w) =~= seq![v, w]);
    let i = (p.len() + 36 + m.len() + 36) as int;
    assert forall|k: int| i <= k < s.len() implies #[trigger] s[k] != '-' by {
        assert(s[k] == q[k - i]);
        assert(q.contains(q[k - i]));
    }
    lemma_no_more(s, i, one);
    lemma_no_more(s, i, seq![v, w]);
}

// Paths.

/// Names of files are searched for the value, everywhere, and twenty are
/// asked for.
pub proof fn law_query(value: Seq<char>)
    ensures
        value_query(value) == (FindQueryView {
            root: None,
            pattern: value,
            files_only: true,
            limit: 20,
        }),
{
}

/// How many paths there are: a number below twenty is exact.
pub proof fn law_totals(count: nat)
    ensures
        count < 20 ==> total_of(count).text() == decimal(count),
        count >= 20 ==> total_of(count).text() == decimal(20) + "+"@,
{
}

/// The first of the paths, so many as are shown.
pub open spec fn first_paths(paths: Seq<Seq<char>>, n: int) -> Seq<Seq<char>> {
    if paths.len() <= n {
        paths
    } else {
        paths.take(n)
    }
}

/// For a single value five of its paths are shown; without paths there is
/// nothing to show.
pub proof fn law_single_value(value: Seq<char>, truncated: bool, paths: Seq<Seq<char>>)
    ensures
        ({
            let references = references_from(seq![value], truncated, seq![paths]);
            &&& paths.len() == 0 ==> references is None
            &&& paths.len() > 0 ==> {
                &&& references is Some
                &&& references->0.groups.len() == 1
                &&& references->0.groups[0].kind == "uuid"@
                &&& references->0.groups[0].key == value
                &&& references->0.groups[0].items == first_paths(paths, 5)
                &&& references->0.groups[0].total == total_of(paths.len())
            }
        }),
{
    reveal_with_fuel(groups_for, 2);
}

/// For several values three paths of each are shown; a value without paths is
/// left out.
pub proof fn law_several_values(
    values: Seq<Seq<char>>,
    found: Seq<Seq<Seq<char>>>,
    truncated: bool,
    value: Seq<char>,
    paths: Seq<Seq<char>>,
)
    requires
        values.len() > 0,
        found.len() == values.len(),
    ensures
        ({
            let before = groups_for(values, found, 3, values.len());
            let references = references_from(values.push(value), truncated, found.push(paths));
            &&& paths.len() == 0 && before.len() == 0 ==> references is None
            &&& paths.len() == 0 && before.len() > 0 ==> references is Some
                && references->0.groups == before
            &&& paths.len() > 0 ==> {
                &&& references is Some
                &&& references->0.groups.len() == before.len() + 1
                &&& references->0.groups.drop_last() == before
                &&& references->0.groups.last().kind == "uuid"@
                &&& references->0.groups.last().key == value
                &&& references->0.groups.last().items == first_paths(paths, 3)
                &&& references->0.groups.last().total == total_of(paths.len())
            }
        }),
{
    lemma_same_groups(values, values.push(value), found, found.push(paths), values.len());
    let n = values.len() + 1;
    let all = groups_for(values.push(value), found.push(paths), 3, n);
    let before = groups_for(values, found, 3, values.len());
    if paths.len() > 0 {
        assert(all.drop_last() =~= before);
    }
}

proof fn lemma_same_groups(
    a: Seq<Seq<char>>,
    b: Seq<Seq<char>>,
    f: Seq<Seq<Seq<char>>>,
    g: Seq<Seq<Seq<char>>>,
    n: nat,
)
    requires
        n <= a.len() && n <= b.len() && n <= f.len() && n <= g.len(),
        forall|i: int| 0 <= i < n ==> a[i] == b[i],
        forall|i: int| 0 <= i < n ==> f[i] == g[i],
    ensures
        groups_for(a, f, 3, n) == groups_for(b, g, 3, n),
    decreases n,
{
    if n > 0 {
        lemma_same_groups(a, b, f, g, (n - 1) as nat);
        assert(a[n - 1] == b[n - 1]);
        assert(f[n - 1] == g[n - 1]);
    }
}

/// The notes on a value say how many paths there are and how many of them are
/// shown; where some are not, they say how many at least.
pub proof fn law_notes(value: Seq<char>, count: nat, limit: nat)
    ensures
        count <= limit ==> group_notes(value, count, limit) == seq![
            "uuid="@ + value + " matches="@ + total_of(count).text() + " showing="@ + decimal(
                count,
            ),
        ],
        count > limit ==> group_notes(value, count, limit) == seq![
            "uuid="@ + value + " matches="@ + total_of(count).text() + " showing="@ + decimal(
                limit,
            ),
            "omitted_at_least="@ + decimal((count - limit) as nat),
        ],
        lookup_notes(false) == seq!["search=Everything path/name only"@, "files_read=false"@],
        lookup_notes(true) == seq![
            "search=Everything path/name only"@,
            "files_read=false"@,
            "uuid_limit="@ + decimal(5) + " reached; later UUID-like values were skipped"@,
        ],
{
    assert(lookup_notes(true) =~= seq![
        "search=Everything path/name only"@,
        "files_read=false"@,
        "uuid_limit="@ + decimal(5) + " reached; later UUID-like values were skipped"@,
    ]);
}

// The context.

/// The lines for one group: a heading with the value and how many of its paths
/// are shown, then those paths, and the notes where they are asked for.
pub proof fn law_group_in_context(
    name: Seq<char>,
    notes: Seq<Seq<char>>,
    value: Seq<char>,
    paths: Seq<Seq<char>>,
    total: ReferenceTotal,
    own: Seq<Seq<char>>,
)
    ensures
        ({
            let group = GroupView { kind: "uuid"@, key: value, items: paths, total, debug_lines: own };
            let references = seq![
                (name, ReferencesView { groups: seq![group], debug_lines: notes }),
            ];
            let heading = "uuid"@ + ":"@ + value + " ["@ + decimal(paths.len()) + "/"@
                + total.text() + "]"@;
            &&& context_lines(references, false) == seq![
                "slowcatch_refs v1 paths_only"@,
                heading,
            ] + paths
            &&& context_lines(references, true) == seq![
                "slowcatch_refs v1 paths_only"@,
                "debug=1"@,
                Seq::empty(),
                "detector="@ + name,
            ] + notes + seq![heading] + paths + own
        }),
{
    reveal_with_fuel(crate::prompt_enrichment::all_reference_lines, 2);
    reveal_with_fuel(crate::prompt_enrichment::all_group_lines, 2);
    let group = GroupView { kind: "uuid"@, key: value, items: paths, total, debug_lines: own };
    let references = seq![(name, ReferencesView { groups: seq![group], debug_lines: notes })];
    let heading = "uuid"@ + ":"@ + value + " ["@ + decimal(paths.len()) + "/"@ + total.text()
        + "]"@;
    assert(group_heading(group) == heading);
    assert(context_lines(references, false) =~= seq![
        "slowcatch_refs v1 paths_only"@,
        heading,
    ] + paths);
    assert(context_lines(references, true) =~= seq![
        "slowcatch_refs v1 paths_only"@,
        "debug=1"@,
        Seq::empty(),
        "detector="@ + name,
    ] + notes + seq![heading] + paths + own);
}

proof fn lemma_whole(lines: Seq<Seq<char>>)
    requires
        lines.len() > 0,
        lines[0].len() > 0,
    ensures
        joined(lines, seq!['\n']).len() > 0,
        utf8_len(joined(lines, seq!['\n'])) <= 8192 ==> !capped_lines(lines).truncated
            && capped_lines(lines).text == joined(lines, seq!['\n']),
    decreases lines.len(),
{
    let sep = seq!['\n'];
    let before = lines.drop_last();
    let line = lines.last();
    assert(before.push(line) =~= lines);
    if before.len() == 0 {
        assert(lines =~= seq![line]);
        reveal_with_fuel(capped_lines, 2);
        lemma_utf8_concat(Seq::empty(), line);
        assert(Seq::<char>::empty() + line =~= line);
    } else {
        assert(before[0] == lines[0]);
        lemma_whole(before);
        law_joined(before, line, sep);
        let text = joined(before, sep);
        lemma_utf8_concat(text + sep, line);
        lemma_utf8_concat(text, sep);
        assert(utf8_len(sep) == 1) by {
            reveal_with_fuel(vstd::utf8::encode_utf8, 2);
        }
        assert(text.push('\n') + line =~= text + sep + line);
    }
}

/// The lines of the context stand one below the other, where they fit into
/// eight kilobytes.
pub proof fn law_context_text(references: Seq<(Seq<char>, ReferencesView)>, debug: bool)
    ensures
        references.len() == 0 ==> context_of(references, debug) is None,
        references.len() > 0 && utf8_len(joined(context_lines(references, debug), seq!['\n']))
            <= 8192 ==> context_of(references, debug) == Some(
            joined(context_lines(references, debug), seq!['\n']),
        ),
{
    if references.len() > 0 {
        let lines = context_lines(references, debug);
        reveal_strlit("slowcatch_refs v1 paths_only");
        assert(lines[0] == "slowcatch_refs v1 paths_only"@);
        lemma_whole(lines);
    }
}

/// Whether the context is that of its first lines: as many as fit, with the note
/// where it fits too.
pub open spec fn cut_after(
    references: Seq<(Seq<char>, ReferencesView)>,
    debug: bool,
    n: int,
) -> bool {
    let lines = context_lines(references, debug);
    let start = joined(lines.take(n), seq!['\n']);
    let noted = start + seq!['\n'] + "truncated=context byte cap reached"@;
    &&& 0 < n < lines.len()
    &&& utf8_len(start) <= 8192
    &&& utf8_len(joined(lines.take(n + 1), seq!['\n'])) > 8192
    &&& context_of(references, debug) == Some(
        if utf8_len(noted) <= 8192 {
            noted
        } else {
            start
        },
    )
}

/// Where they do not fit, the context is a start of the lines that is no
/// longer than eight kilobytes, with a note below it where there is room.
pub proof fn law_context_is_cut(references: Seq<(Seq<char>, ReferencesView)>, debug: bool)
    requires
        references.len() > 0,
        utf8_len(joined(context_lines(references, debug), seq!['\n'])) > 8192,
    ensures
        exists|n: int| #[trigger] cut_after(references, debug, n),
{
    let lines = context_lines(references, debug);
    let sep = seq!['\n'];
    reveal_strlit("slowcatch_refs v1 paths_only");
    let head = "slowcatch_refs v1 paths_only"@;
    assert(lines[0] == head);
    assert(lines.take(1) =~= seq![head]);
    assert(utf8_len(head) <= 8192) by {
        lemma_ascii_len(head);
    }
    assert(lines.take(lines.len() as int) =~= lines);
    let n = lemma_first_too_long(lines, 1);
    let start = lines.take(n);
    lemma_whole(start);
    lemma_cut_at(lines, n, lines.len() as int);
    let text = joined(start, sep);
    let note = cap_note();
    lemma_utf8_concat(text + sep, note);
    lemma_utf8_concat(text, sep);
    assert(utf8_len(sep) == 1) by {
        reveal_with_fuel(vstd::utf8::encode_utf8, 2);
    }
    assert(with_line(text, note) =~= text + sep + note);
    assert(context_of(references, debug) == Some(
        if utf8_len(text + sep + note) <= 8192 {
            text + sep + note
        } else {
            text
        },
    ));
    assert(cut_after(references, debug, n));
}

proof fn lemma_ascii_len(s: Seq<char>)
    requires
        forall|i: int| 0 <= i < s.len() ==> (#[trigger] s[i] as u32) < 128,
    ensures
        utf8_len(s) == s.len(),
    decreases s.len(),
{
    if s.len() > 0 {
        assert(s[0] as u32 <= 127);
        assert forall|i: int| 0 <= i < s.drop_first().len() implies (#[trigger] s.drop_first()[i]
            as u32) < 128 by {
            assert(s.drop_first()[i] == s[i + 1]);
        }
        lemma_ascii_len(s.drop_first());
    }
}

proof fn lemma_first_too_long(lines: Seq<Seq<char>>, from: int) -> (n: int)
    requires
        1 <= from <= lines.len(),
        utf8_len(joined(lines.take(from), seq!['\n'])) <= 8192,
        utf8_len(joined(lines.take(lines.len() as int), seq!['\n'])) > 8192,
    ensures
        from <= n < lines.len(),
        utf8_len(joined(lines.take(n), seq!['\n'])) <= 8192,
        utf8_len(joined(lines.take(n + 1), seq!['\n'])) > 8192,
    decreases lines.len() - from,
{
    if utf8_len(joined(lines.take(from + 1), seq!['\n'])) > 8192 {
        from
    } else {
        lemma_first_too_long(lines, from + 1)
    }
}

proof fn lemma_cut_at(lines: Seq<Seq<char>>, n: int, m: int)
    requires
        0 < n < m <= lines.len(),
        lines[0].len() > 0,
        utf8_len(joined(lines.take(n), seq!['\n'])) <= 8192,
        utf8_len(joined(lines.take(n + 1), seq!['\n'])) > 8192,
    ensures
        capped_lines(lines.take(m)).truncated,
        capped_lines(lines.take(m)).text == joined(lines.take(n), seq!['\n']),
    decreases m,
{
    let sep = seq!['\n'];
    let before = lines.take(m - 1);
    assert(lines.take(m).drop_last() =~= before);
    if m == n + 1 {
        let start = lines.take(n);
        let line = lines[n];
        lemma_whole(start);
        assert(start.push(line) =~= lines.take(n + 1));
        law_joined(start, line, sep);
        let text = joined(start, sep);
        lemma_utf8_concat(text + sep, line);
        lemma_utf8_concat(text, sep);
        assert(utf8_len(sep) == 1) by {
            reveal_with_fuel(vstd::utf8::encode_utf8, 2);
        }
    } else {
        lemma_cut_at(lines, n, m - 1);
    }
}

/// The results that are shown are those of the enrichers that found something,
/// in order.
pub proof fn law_selected(
    results: Seq<(Seq<char>, Result<Option<ReferencesView>, Seq<char>>)>,
    name: Seq<char>,
    found: ReferencesView,
    error: Seq<char>,
)
    ensures
        selected(results.push((name, Ok(Some(found))))) == selected(results).push((name, found)),
        selected(results.push((name, Ok(None)))) == selected(results),
        selected(results.push((name, Err(error)))) == selected(results),
        selected(Seq::empty()) == Seq::<(Seq<char>, ReferencesView)>::empty(),
{
    assert(results.push((name, Ok(Some(found)))).drop_last() =~= results);
    assert(results.push((name, Ok(None))).drop_last() =~= results);
    assert(results.push((name, Err(error))).drop_last() =~= results);
}

/// The context of a prompt is that of what was found for its values.
pub proof fn law_enriched(
    values: Seq<Seq<char>>,
    truncated: bool,
    found: Seq<Seq<Seq<char>>>,
    debug: bool,
)
    ensures
        enriched(values, truncated, found, debug) is None <==> references_from(
            values,
            truncated,
            found,
        ) is None,
        references_from(values, truncated, found) matches Some(references) ==> enriched(
            values,
            truncated,
            found,
            debug,
        ) == context_of(seq![("uuid_path_lookup"@, references)], debug),
{
}

} // verus!
