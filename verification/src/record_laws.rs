//! What holds of all records: what a condition keeps, how records are
//! sorted, limited and selected, and what is shown of them.
use crate::case::word_chars;
use crate::number::decimal;
use crate::sorting::{key_less, law_sorting, order_of, text_key};
use crate::structured::{
    applied, clause_of, column_of, column_text, grep_columns, in_order, law_selection_is_exact,
    meets, met, path_columns, record_keys, records_text, selection_of, slice_columns, with_columns,
    ClauseView, FieldView, OptionsView, OutputFormat,
};
use crate::text_laws::{
    law_has_text, law_joined, law_split, law_tight, lemma_position_behind, stands_in,
};
use vstd::prelude::*;
use vstd::string::*;

verus! {

/// Whether a text can name a column: letters, digits and underscores.
pub open spec fn is_name(column: Seq<char>) -> bool {
    &&& column.len() > 0
    &&& forall|i: int|
        0 <= i < column.len() ==> {
            let c = #[trigger] column[i];
            ||| '0' <= c && c <= '9'
            ||| 'A' <= c && c <= 'Z'
            ||| 'a' <= c && c <= 'z'
            ||| c == '_'
        }
}

/// Whether a value shows a text: a text itself, a number its digits, and null
/// nothing.
pub open spec fn shows(value: FieldView, text: Seq<char>) -> bool {
    match value {
        FieldView::Text(t) => text == t,
        FieldView::Number(n) => text == decimal(n as nat),
        FieldView::Null => text.len() == 0,
    }
}

/// Whether a record has a column with a text that holds a piece, anywhere.
pub open spec fn column_holds(
    record: Map<Seq<char>, FieldView>,
    column: Seq<char>,
    piece: Seq<char>,
) -> bool {
    record.dom().contains(column) && exists|p: Seq<char>, q: Seq<char>|
        shows(record[column], #[trigger] (p + piece + q))
}

/// Whether a record has a column with exactly a text.
pub open spec fn column_is(
    record: Map<Seq<char>, FieldView>,
    column: Seq<char>,
    text: Seq<char>,
) -> bool {
    record.dom().contains(column) && shows(record[column], text)
}

/// Options that only filter.
pub open spec fn filtering(clause: ClauseView) -> OptionsView {
    OptionsView { select: None, where_clause: Some(clause), sort_by: None, limit: None }
}

proof fn lemma_name(column: Seq<char>)
    requires
        is_name(column),
    ensures
        column_of(column) == Ok::<Seq<char>, crate::structured::ErrorView>(column),
        !column.contains('~'),
        !column.contains('='),
        !column.contains(','),
{
    assert(word_chars(column));
    law_tight(column);
    if column.contains('~') {
        let i = column.index_of('~');
        assert(column[i] == '~');
    }
    if column.contains('=') {
        let i = column.index_of('=');
        assert(column[i] == '=');
    }
    if column.contains(',') {
        let i = column.index_of(',');
        assert(column[i] == ',');
    }
}

proof fn lemma_filtered(
    records: Seq<Map<Seq<char>, FieldView>>,
    clause: ClauseView,
    keep: spec_fn(Map<Seq<char>, FieldView>) -> bool,
)
    requires
        forall|record: Map<Seq<char>, FieldView>| #[trigger] keep(record) == meets(record, clause),
    ensures
        met(records, Some(clause)) == records.filter(keep),
    decreases records.len(),
{
    reveal(Seq::filter);
    if records.len() > 0 {
        lemma_filtered(records.drop_last(), clause, keep);
    }
}

proof fn lemma_holds(record: Map<Seq<char>, FieldView>, column: Seq<char>, piece: Seq<char>)
    ensures
        column_holds(record, column, piece) <==> meets(
            record,
            ClauseView::Contains { column, value: piece },
        ),
{
    if record.dom().contains(column) {
        let text = column_text(record, column)->0;
        law_has_text(text, piece);
        if stands_in(piece, text) {
            let (p, q) = choose|p: Seq<char>, q: Seq<char>| text == #[trigger] (p + piece + q);
            assert(shows(record[column], p + piece + q));
        }
        if column_holds(record, column, piece) {
            let (p, q) = choose|p: Seq<char>, q: Seq<char>|
                shows(record[column], #[trigger] (p + piece + q));
            assert(text =~= p + piece + q);
        }
    }
}

/// A condition with a tilde keeps exactly the records whose column holds the
/// text, at whatever place, and keeps them in order.
pub proof fn law_where_holds(
    records: Seq<Map<Seq<char>, FieldView>>,
    column: Seq<char>,
    piece: Seq<char>,
)
    requires
        is_name(column),
    ensures
        clause_of(column + seq!['~'] + piece) matches Ok(clause) && applied(
            records,
            filtering(clause),
        ) == records.filter(
            |record: Map<Seq<char>, FieldView>| column_holds(record, column, piece),
        ),
{
    lemma_name(column);
    let input = column + seq!['~'] + piece;
    lemma_position_behind(column, '~', piece);
    assert(input.take(column.len() as int) =~= column);
    assert(input.skip(column.len() as int + 1) =~= piece);
    crate::split::lemma_position_bounds(input, '=');
    assert(crate::split::position_of(input, '=') > column.len()) by {
        let e = crate::split::position_of(input, '=') as int;
        if e <= column.len() {
            if e < column.len() {
                assert(input[e] == column[e]);
                assert(column.contains(column[e]));
            } else {
                assert(input[e] == '~');
            }
        }
    }
    let clause = ClauseView::Contains { column, value: piece };
    assert(clause_of(input) == Ok::<ClauseView, crate::structured::ErrorView>(clause));
    let keep = |record: Map<Seq<char>, FieldView>| column_holds(record, column, piece);
    assert forall|record: Map<Seq<char>, FieldView>| #[trigger] keep(record) == meets(
        record,
        clause,
    ) by {
        lemma_holds(record, column, piece);
    }
    lemma_filtered(records, clause, keep);
}

/// A condition with an equals sign keeps exactly the records whose column is
/// the text, and keeps them in order.
pub proof fn law_where_is(
    records: Seq<Map<Seq<char>, FieldView>>,
    column: Seq<char>,
    text: Seq<char>,
)
    requires
        is_name(column),
    ensures
        clause_of(column + seq!['='] + text) matches Ok(clause) && applied(
            records,
            filtering(clause),
        ) == records.filter(|record: Map<Seq<char>, FieldView>| column_is(record, column, text)),
{
    lemma_name(column);
    let input = column + seq!['='] + text;
    lemma_position_behind(column, '=', text);
    assert(input.take(column.len() as int) =~= column);
    assert(input.skip(column.len() as int + 1) =~= text);
    crate::split::lemma_position_bounds(input, '~');
    assert(crate::split::position_of(input, '~') > column.len()) by {
        let e = crate::split::position_of(input, '~') as int;
        if e <= column.len() {
            if e < column.len() {
                assert(input[e] == column[e]);
                assert(column.contains(column[e]));
            } else {
                assert(input[e] == '=');
            }
        }
    }
    let clause = ClauseView::Equals { column, value: text };
    assert(clause_of(input) == Ok::<ClauseView, crate::structured::ErrorView>(clause));
    let keep = |record: Map<Seq<char>, FieldView>| column_is(record, column, text);
    assert forall|record: Map<Seq<char>, FieldView>| #[trigger] keep(record) == meets(
        record,
        clause,
    ) by {
        if record.dom().contains(column) {
            let found = column_text(record, column)->0;
            assert(found =~= text ==> found == text);
            assert(record[column] is Null && text.len() == 0 ==> found =~= text);
        }
    }
    lemma_filtered(records, clause, keep);
}

/// Without a condition every record is kept.
pub proof fn law_no_condition(records: Seq<Map<Seq<char>, FieldView>>)
    ensures
        applied(
            records,
            OptionsView { select: None, where_clause: None, sort_by: None, limit: None },
        ) == records,
    decreases records.len(),
{
    lemma_unfiltered(records);
}

proof fn lemma_unfiltered(records: Seq<Map<Seq<char>, FieldView>>)
    ensures
        met(records, None) == records,
    decreases records.len(),
{
    if records.len() > 0 {
        lemma_unfiltered(records.drop_last());
        assert(records.drop_last().push(records.last()) =~= records);
    }
}

/// Whether one text comes before another: at the first place where they
/// differ it has the smaller character, or it ends there.
pub open spec fn text_before(a: Seq<char>, b: Seq<char>) -> bool {
    exists|k: int|
        0 <= k < b.len() && k <= a.len() && #[trigger] a.take(k) == b.take(k) && (k < a.len()
            ==> a[k] < b[k])
}

proof fn lemma_char_order(a: char, b: char)
    ensures
        a as u64 == b as u64 <==> a == b,
        (a as u64) < (b as u64) <==> a < b,
{
}

pub proof fn lemma_text_order(a: Seq<char>, b: Seq<char>)
    ensures
        key_less(text_key(a), text_key(b)) <==> text_before(a, b),
    decreases a.len(),
{
    let x = text_key(a);
    let y = text_key(b);
    if b.len() == 0 {
    } else if a.len() == 0 {
        assert(a.take(0) =~= b.take(0));
    } else if a[0] == b[0] {
        assert(x.skip(1) =~= text_key(a.skip(1)));
        assert(y.skip(1) =~= text_key(b.skip(1)));
        lemma_text_order(a.skip(1), b.skip(1));
        if text_before(a.skip(1), b.skip(1)) {
            let k = choose|k: int|
                0 <= k < b.skip(1).len() && k <= a.skip(1).len() && #[trigger] a.skip(1).take(k)
                    == b.skip(1).take(k) && (k < a.skip(1).len() ==> a.skip(1)[k] < b.skip(1)[k]);
            assert(a.take(k + 1) =~= seq![a[0]] + a.skip(1).take(k));
            assert(b.take(k + 1) =~= seq![b[0]] + b.skip(1).take(k));
            assert(a.take(k + 1) == b.take(k + 1));
        }
        if text_before(a, b) {
            let k = choose|k: int|
                0 <= k < b.len() && k <= a.len() && #[trigger] a.take(k) == b.take(k) && (k < a.len()
                    ==> a[k] < b[k]);
            assert(k > 0);
            assert(a.skip(1).take(k - 1) =~= a.take(k).skip(1));
            assert(b.skip(1).take(k - 1) =~= b.take(k).skip(1));
            assert(a.skip(1).take(k - 1) == b.skip(1).take(k - 1));
        }
    } else {
        lemma_char_order(a[0], b[0]);
        assert(x[0] == a[0] as u64 && y[0] == b[0] as u64);
        if a[0] < b[0] {
            assert(a.take(0) =~= b.take(0));
        }
        if text_before(a, b) {
            let k = choose|k: int|
                0 <= k < b.len() && k <= a.len() && #[trigger] a.take(k) == b.take(k) && (k < a.len()
                    ==> a[k] < b[k]);
            if k > 0 {
                assert(a.take(k)[0] == b.take(k)[0]);
            }
        }
    }
}

/// What a column shows, and nothing where a record lacks it.
pub open spec fn shown_in(record: Map<Seq<char>, FieldView>, column: Seq<char>) -> Seq<char> {
    if !record.dom().contains(column) {
        Seq::empty()
    } else {
        match record[column] {
            FieldView::Text(t) => t,
            FieldView::Number(n) => decimal(n as nat),
            FieldView::Null => Seq::empty(),
        }
    }
}

/// Sorted records are all the records, each as often as before; none comes
/// before one whose column comes first, and of records with the same column
/// those that came first stay first: the places that they had are given by
/// some order.
pub proof fn law_sorted(records: Seq<Map<Seq<char>, FieldView>>, column: Seq<char>)
    ensures
        ({
            let sorted = applied(
                records,
                OptionsView { select: None, where_clause: None, sort_by: Some(column), limit: None },
            );
            exists|places: Seq<int>|
                {
                    &&& places.len() == records.len()
                    &&& sorted.len() == records.len()
                    &&& #[trigger] places.no_duplicates()
                    &&& forall|i: int|
                        0 <= i < places.len() ==> 0 <= #[trigger] places[i] < records.len()
                            && sorted[i] == records[places[i]]
                    &&& forall|i: int, j: int|
                        0 <= i < j < places.len() ==> !text_before(
                            shown_in(records[#[trigger] places[j]], column),
                            shown_in(records[#[trigger] places[i]], column),
                        )
                    &&& forall|i: int, j: int|
                        0 <= i < j < places.len() && shown_in(
                            records[#[trigger] places[i]],
                            column,
                        ) == shown_in(records[#[trigger] places[j]], column) ==> places[i]
                            < places[j]
                }
        }),
{
    lemma_unfiltered(records);
    let keys = record_keys(records, column);
    law_sorting(keys, false);
    let places = order_of(keys, false);
    let sorted = in_order(records, Some(column));
    assert forall|k: int| 0 <= k < records.len() implies keys[k] == text_key(
        shown_in(#[trigger] records[k], column),
    ) by {}
    assert forall|i: int| 0 <= i < places.len() implies 0 <= #[trigger] places[i] < records.len()
        && sorted[i] == records[places[i]] by {}
    assert forall|i: int, j: int| 0 <= i < j < places.len() implies !text_before(
        shown_in(records[#[trigger] places[j]], column),
        shown_in(records[#[trigger] places[i]], column),
    ) by {
        lemma_text_order(
            shown_in(records[places[j]], column),
            shown_in(records[places[i]], column),
        );
    }
    assert forall|i: int, j: int|
        0 <= i < j < places.len() && shown_in(records[#[trigger] places[i]], column) == shown_in(
            records[#[trigger] places[j]],
            column,
        ) implies places[i] < places[j] by {
        lemma_text_order(
            shown_in(records[places[i]], column),
            shown_in(records[places[j]], column),
        );
        lemma_not_before_itself(shown_in(records[places[i]], column));
    }
    assert(places.no_duplicates());
}

proof fn lemma_not_before_itself(a: Seq<char>)
    ensures
        !text_before(a, a),
{
}

/// A limit leaves the first so many of the records that are left without it,
/// after they are filtered and sorted.
pub proof fn law_limit_is_a_start(
    records: Seq<Map<Seq<char>, FieldView>>,
    options: OptionsView,
    limit: usize,
)
    ensures
        ({
            let all = applied(records, OptionsView { limit: None, ..options });
            let some = applied(records, OptionsView { limit: Some(limit), ..options });
            some == if all.len() <= limit {
                all
            } else {
                all.take(limit as int)
            }
        }),
{
    let all = applied(records, OptionsView { limit: None, ..options });
    let some = applied(records, OptionsView { limit: Some(limit), ..options });
    assert(some =~= if all.len() <= limit {
        all
    } else {
        all.take(limit as int)
    });
}

/// Selecting columns keeps the number and the order of the records, and of
/// each record exactly those columns, with its values; a column that it lacks
/// is null.
pub proof fn law_selected(
    records: Seq<Map<Seq<char>, FieldView>>,
    options: OptionsView,
    columns: Seq<Seq<char>>,
    i: int,
    column: Seq<char>,
)
    requires
        0 <= i < applied(records, OptionsView { select: None, ..options }).len(),
    ensures
        ({
            let all = applied(records, OptionsView { select: None, ..options });
            let some = applied(records, OptionsView { select: Some(columns), ..options });
            &&& some.len() == all.len()
            &&& some[i].dom().contains(column) <==> columns.contains(column)
            &&& columns.contains(column) ==> some[i][column] == if all[i].dom().contains(column) {
                all[i][column]
            } else {
                FieldView::Null
            }
        }),
{
    let all = applied(records, OptionsView { select: None, ..options });
    let some = applied(records, OptionsView { select: Some(columns), ..options });
    assert(some[i] == with_columns(all[i], columns));
    law_selection_is_exact(all[i], columns);
}

/// Columns are selected by their names with commas between them.
pub proof fn law_selection_text(first: Seq<char>, second: Seq<char>)
    requires
        is_name(first),
        is_name(second),
    ensures
        selection_of(first) == Ok::<Seq<Seq<char>>, crate::structured::ErrorView>(seq![first]),
        selection_of(first + seq![','] + second) == Ok::<
            Seq<Seq<char>>,
            crate::structured::ErrorView,
        >(seq![first, second]),
{
    lemma_name(first);
    lemma_name(second);
    law_tight(first);
    law_tight(second);
    law_split(first, ',', second);
    law_split(second, ',', second);
    let one = seq![first];
    let two = seq![first] + seq![second];
    assert(two =~= seq![first, second]);
    assert(one.drop_last() =~= Seq::<Seq<char>>::empty());
    assert(two.drop_last() =~= one);
    reveal_with_fuel(crate::structured::selected_columns, 3);
    assert(Seq::<Seq<char>>::empty().push(first) =~= one);
    assert(one.push(second) =~= two);
    assert(crate::split::split_on(first, ',') =~= one);
    assert(crate::split::split_on(first + seq![','] + second, ',') =~= two);
}

/// A matching line is shown as its path, its number and its text, with colons
/// between them; a path as itself; and a line of a file as its text. Records
/// are shown one on a line.
pub proof fn law_plain_text(
    path: Seq<char>,
    name: Seq<char>,
    parent: Seq<char>,
    number: usize,
    line: Seq<char>,
)
    ensures
        records_text(
            seq![grep_columns(path_columns(path, name, parent), number, line)],
            OutputFormat::Text,
            None,
        ) == path + seq![':'] + decimal(number as nat) + seq![':'] + line,
        records_text(seq![path_columns(path, name, parent)], OutputFormat::Text, Some("path"@))
            == path,
        records_text(seq![slice_columns(number, line)], OutputFormat::Text, Some("text"@)) == line,
{
    lemma_column_names();
    reveal_strlit(":");
    let m = grep_columns(path_columns(path, name, parent), number, line);
    let f = path_columns(path, name, parent);
    let l = slice_columns(number, line);
    assert(m["path"@] == FieldView::Text(path));
    assert(m["line_number"@] == FieldView::Number(number as u64));
    assert(m["line"@] == FieldView::Text(line));
    assert(f["path"@] == FieldView::Text(path));
    assert(l["text"@] == FieldView::Text(line));
    let cm = |record: Map<Seq<char>, FieldView>|
        crate::structured::record_line(record, OutputFormat::Text, None);
    let cf = |record: Map<Seq<char>, FieldView>|
        crate::structured::record_line(record, OutputFormat::Text, Some("path"@));
    let cl = |record: Map<Seq<char>, FieldView>|
        crate::structured::record_line(record, OutputFormat::Text, Some("text"@));
    assert(seq![m].map_values(cm) =~= seq![cm(m)]);
    assert(seq![f].map_values(cf) =~= seq![cf(f)]);
    assert(seq![l].map_values(cl) =~= seq![cl(l)]);
    assert(":"@ =~= seq![':']);
}

proof fn lemma_column_names()
    ensures
        "path"@ != "name"@,
        "path"@ != "extension"@,
        "path"@ != "parent"@,
        "path"@ != "line_number"@,
        "path"@ != "line"@,
        "line"@ != "line_number"@,
        "name"@ != "extension"@,
        "name"@ != "parent"@,
        "name"@ != "line"@,
        "name"@ != "line_number"@,
        "extension"@ != "parent"@,
        "extension"@ != "line"@,
        "extension"@ != "line_number"@,
        "parent"@ != "line"@,
        "parent"@ != "line_number"@,
        "text"@ != "line_number"@,
{
    reveal_strlit("path");
    reveal_strlit("name");
    reveal_strlit("extension");
    reveal_strlit("parent");
    reveal_strlit("line");
    reveal_strlit("line_number");
    reveal_strlit("text");
    assert("path"@[0] == 'p' && "path"@[2] == 't');
    assert("name"@[0] == 'n');
    assert("parent"@[2] == 'r');
    assert("text"@[0] == 't');
    assert("line_number"@[0] == 'l' && "line_number"@.len() == 11 && "line"@.len() == 4);
    assert("extension"@[0] == 'e');
}

/// Records in plain text stand one on a line, in order.
pub proof fn law_one_on_a_line(
    records: Seq<Map<Seq<char>, FieldView>>,
    record: Map<Seq<char>, FieldView>,
    format: OutputFormat,
    column: Option<Seq<char>>,
)
    requires
        !(format is Json),
        records.len() > 0,
    ensures
        records_text(records.push(record), format, column) == records_text(records, format, column)
            + seq!['\n'] + records_text(seq![record], format, column),
{
    reveal_strlit("\n");
    let f = |record: Map<Seq<char>, FieldView>|
        crate::structured::record_line(record, format, column);
    let all = records.map_values(f);
    assert(records.push(record).map_values(f) =~= all.push(f(record)));
    assert(seq![record].map_values(f) =~= seq![f(record)]);
    law_joined(all, f(record), "\n"@);
    assert("\n"@ =~= seq!['\n']);
}

/// The record of a path has the path, the file name, the extension with its
/// dot, or nothing where there is none, and the directory.
pub proof fn law_path_record(path: Seq<char>, stem: Seq<char>, ext: Seq<char>, parent: Seq<char>)
    requires
        stem.len() > 0,
        !ext.contains('.'),
    ensures
        ({
            let record = path_columns(path, stem + seq!['.'] + ext, parent);
            &&& record.dom().contains("path"@) && record["path"@] == FieldView::Text(path)
            &&& record.dom().contains("name"@) && record["name"@] == FieldView::Text(
                stem + seq!['.'] + ext,
            )
            &&& record.dom().contains("extension"@) && record["extension"@] == FieldView::Text(
                seq!['.'] + ext,
            )
            &&& record.dom().contains("parent"@) && record["parent"@] == FieldView::Text(parent)
        }),
{
    lemma_column_names();
    lemma_after_dot(stem, ext);
}

pub proof fn lemma_after_dot(stem: Seq<char>, ext: Seq<char>)
    requires
        !ext.contains('.'),
    ensures
        crate::split::after_last(stem + seq!['.'] + ext, '.') == Some(ext),
    decreases ext.len(),
{
    let s = stem + seq!['.'] + ext;
    if ext.len() == 0 {
        assert(s.last() == '.');
        assert(ext =~= Seq::<char>::empty());
    } else {
        assert(ext.contains(ext.last()));
        assert(s.last() == ext.last());
        assert(s.drop_last() =~= stem + seq!['.'] + ext.drop_last());
        assert(!ext.drop_last().contains('.')) by {
            if ext.drop_last().contains('.') {
                let i = ext.drop_last().index_of('.');
                assert(ext[i] == '.');
            }
        }
        lemma_after_dot(stem, ext.drop_last());
        assert(ext.drop_last().push(ext.last()) =~= ext);
    }
}

} // verus!
