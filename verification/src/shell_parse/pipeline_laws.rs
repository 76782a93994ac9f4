//! What holds of all pipelines behind a listing: how they filter, sort, project
//! and measure.
use super::commands::{
    content_search_of, directory_pipeline_of, find_measure_of, find_pipeline_of, find_projection_of,
    listing_search_of, no_steps, pipeline_of, steps_of, with_step, StepsView,
};
use super::content::{context_of, no_select, pattern_scan, select_scan, SelectView};
use super::filters::{
    block_tokens, column_named, columns_of, comparison, field_named, limit_scan, limited_projection,
    measure_of, measure_scan, name_match_of, projection_of, sort_scan, unbraced, where_filter_of,
};
use super::listing_laws::{
    law_listing_options, lemma_call_named, lemma_listing_word, lemma_reading_word,
    lemma_search_word, listing_word, path_word, pattern_word, place, reading_word, search_word,
    tells, Told,
};
use super::operation::OperationView;
use super::reading_laws::{
    all_bare, bare, call, calm, law_pipe, lemma_call_is_calm, lemma_decimal_is_bare,
    lemma_not_path_option, lemma_options, lemma_parts_calm, lemma_parts_step, lemma_spelled,
    lower_ascii, same_letter, spelled,
};
use super::words::{parts_from, parts_of};
use crate::backends::directory::{
    DirectoryListView, DirectoryMatchField, DirectoryNameMatchView, DirectoryPipelineView,
};
use crate::backends::everything::FindQueryView;
use crate::backends::grep::{GrepContextQueryView, GrepQueryView};
use crate::backends::projection::{
    FileField, FileSort, FileWhereView, FindMeasureView, FindPipelineView, FindProjectionView,
    MeasureKind, MetadataField, ProjectionView,
};
use crate::case::lowered;
use crate::number::{decimal, law_number_round_trip};
use crate::split::joined;
use crate::text::{
    has_prefix, lemma_leading, lemma_trailing, trimmed, trimmed_end, trimmed_start,
    without_prefixes, CharClass,
};
use crate::text_laws::{law_split, law_tight, law_trim};
use vstd::prelude::*;
use vstd::string::*;

verus! {

// Fields.

/// Whether a word names a field of a file, in any case.
pub open spec fn names_field(word: Seq<char>, field: FileField) -> bool {
    match field {
        FileField::FullName => spelled(word, "fullname"@) || spelled(word, "full_name"@),
        FileField::Name => spelled(word, "name"@),
        FileField::Extension => spelled(word, "extension"@),
        FileField::Length => spelled(word, "length"@),
        FileField::LastWriteTime => spelled(word, "lastwritetime"@) || spelled(
            word,
            "last_write_time"@,
        ),
    }
}

proof fn lemma_field_words()
    ensures
        lower_ascii("fullname"@) && lower_ascii("full_name"@) && lower_ascii("name"@)
            && lower_ascii("extension"@) && lower_ascii("length"@) && lower_ascii(
            "lastwritetime"@,
        ) && lower_ascii("last_write_time"@) && lower_ascii("mode"@),
        "fullname"@.len() == 8 && "fullname"@[0] == 'f',
        "full_name"@.len() == 9 && "full_name"@[0] == 'f',
        "name"@.len() == 4 && "name"@[0] == 'n',
        "extension"@.len() == 9 && "extension"@[0] == 'e',
        "length"@.len() == 6 && "length"@[0] == 'l',
        "lastwritetime"@.len() == 13 && "lastwritetime"@[0] == 'l',
        "last_write_time"@.len() == 15 && "last_write_time"@[0] == 'l',
        "mode"@.len() == 4 && "mode"@[0] == 'm',
{
    reveal_strlit("fullname");
    reveal_strlit("full_name");
    reveal_strlit("name");
    reveal_strlit("extension");
    reveal_strlit("length");
    reveal_strlit("lastwritetime");
    reveal_strlit("last_write_time");
    reveal_strlit("mode");
}

proof fn lemma_field_word(word: Seq<char>, field: FileField)
    requires
        names_field(word, field),
    ensures
        word.len() > 0,
        word[0] != '$' && word[0] != '.' && word[0] != '{' && word[0] != '-',
        lowered(word).len() > 0 && lowered(word)[0] != '-',
        match field {
            FileField::FullName => lowered(word) == "fullname"@ || lowered(word) == "full_name"@,
            FileField::Name => lowered(word) == "name"@,
            FileField::Extension => lowered(word) == "extension"@,
            FileField::Length => lowered(word) == "length"@,
            FileField::LastWriteTime => lowered(word) == "lastwritetime"@ || lowered(word)
                == "last_write_time"@,
        },
{
    lemma_field_words();
    let lower = match field {
        FileField::FullName => if spelled(word, "fullname"@) {
            "fullname"@
        } else {
            "full_name"@
        },
        FileField::Name => "name"@,
        FileField::Extension => "extension"@,
        FileField::Length => "length"@,
        FileField::LastWriteTime => if spelled(word, "lastwritetime"@) {
            "lastwritetime"@
        } else {
            "last_write_time"@
        },
    };
    assert(spelled(word, lower));
    lemma_spelled(word, lower);
    assert(same_letter(word[0], lower[0]));
}

/// A field is named by a word in any case, with or without the sign for the
/// current file.
pub proof fn law_fields(word: Seq<char>, field: FileField)
    requires
        names_field(word, field),
    ensures
        field_named(word) == Some(field),
        field_named("$_."@ + word) == Some(field),
{
    lemma_field_words();
    lemma_field_word(word, field);
    reveal_strlit("$_.");
    let sign = "$_."@;
    let with = sign + word;
    assert(!has_prefix(word, sign)) by {
        if has_prefix(word, sign) {
            assert(word.subrange(0, 3)[0] == word[0]);
        }
    }
    assert(with.subrange(0, 3) =~= sign);
    assert(with.skip(3) =~= word);
    assert(without_prefixes(with, sign) == without_prefixes(word, sign));
    assert(without_prefixes(word, sign) == word);
    lemma_leading(word, CharClass::Only('.'), 0);
    assert(trimmed_start(word, CharClass::Only('.')) =~= word);
}

// Filters.

proof fn lemma_end_brace(word: Seq<char>)
    requires
        word.len() > 0 ==> word.last() != '}',
    ensures
        trimmed_end(word, CharClass::Only('}')) == word,
{
    lemma_trailing(word, CharClass::Only('}'), 0);
    assert(trimmed_end(word, CharClass::Only('}')) =~= word);
}

#[verifier::rlimit(40)]
proof fn lemma_comparison(word: Seq<char>, field: FileField, operator: Seq<char>, value: Seq<char>)
    requires
        names_field(word, field),
        value.len() > 0 && value.last() != '}',
        operator.len() > 0,
    ensures
        comparison(seq![word, operator, value]) == Some((field, lowered(operator), value)),
        comparison(seq![seq!['{'], word, operator, value, seq!['}']]) == Some(
            (field, lowered(operator), value),
        ),
{
    lemma_field_word(word, field);
    law_fields(word, field);
    let e = Seq::<Seq<char>>::empty();
    reveal_with_fuel(block_tokens, 6);
    let t = seq![word, operator, value];
    lemma_leading(word, CharClass::Only('{'), 0);
    assert(trimmed_start(word, CharClass::Only('{')) =~= word);
    lemma_end_brace(value);
    assert(unbraced(t, 0) == word);
    assert(unbraced(t, 1) == operator);
    assert(unbraced(t, 2) == value);
    assert(block_tokens(t, 1) =~= seq![word]);
    assert(block_tokens(t, 2) =~= seq![word, operator]);
    assert(block_tokens(t, 3) =~= seq![word, operator, value]);
    let open = seq!['{'];
    let close = seq!['}'];
    let u = seq![open, word, operator, value, close];
    lemma_leading(open, CharClass::Only('{'), 1);
    assert(trimmed_start(open, CharClass::Only('{')) =~= Seq::<char>::empty());
    lemma_trailing(close, CharClass::Only('}'), 1);
    assert(trimmed_end(close, CharClass::Only('}')) =~= Seq::<char>::empty());
    assert(unbraced(u, 0) =~= Seq::<char>::empty());
    assert(unbraced(u, 1) == word);
    assert(unbraced(u, 2) == operator);
    assert(unbraced(u, 3) == value);
    assert(unbraced(u, 4) =~= Seq::<char>::empty());
    assert(block_tokens(u, 1) =~= e);
    assert(block_tokens(u, 2) =~= seq![word]);
    assert(block_tokens(u, 3) =~= seq![word, operator]);
    assert(block_tokens(u, 4) =~= seq![word, operator, value]);
    assert(block_tokens(u, 5) =~= seq![word, operator, value]);
}

/// A filter compares a field with a pattern or a value, and a name with a
/// pattern of its own kind; braces around it do not matter.
pub proof fn law_filters(word: Seq<char>, field: FileField, operator: Seq<char>, value: Seq<char>)
    requires
        names_field(word, field),
        value.len() > 0 && value.last() != '}',
        spelled(operator, "-like"@) || spelled(operator, "-eq"@) || spelled(operator, "-match"@),
    ensures
        spelled(operator, "-like"@) ==> where_filter_of(seq![word, operator, value]) == Some(
            FileWhereView::Like { field, pattern: value },
        ),
        spelled(operator, "-eq"@) ==> where_filter_of(seq![word, operator, value]) == Some(
            FileWhereView::Equals { field, value },
        ),
        spelled(operator, "-match"@) ==> where_filter_of(seq![word, operator, value]) is None,
        where_filter_of(seq![seq!['{'], word, operator, value, seq!['}']]) == where_filter_of(
            seq![word, operator, value],
        ),
        spelled(operator, "-match"@) && field is Name ==> name_match_of(
            seq![word, operator, value],
        ) == Some(DirectoryNameMatchView { field: DirectoryMatchField::Name, pattern: value }),
        spelled(operator, "-match"@) && field is FullName ==> name_match_of(
            seq![word, operator, value],
        ) == Some(DirectoryNameMatchView { field: DirectoryMatchField::FullName, pattern: value }),
        !spelled(operator, "-match"@) || !(field is Name || field is FullName) ==> name_match_of(
            seq![word, operator, value],
        ) is None,
        name_match_of(seq![seq!['{'], word, operator, value, seq!['}']]) == name_match_of(
            seq![word, operator, value],
        ),
{
    reveal_strlit("-like");
    reveal_strlit("-eq");
    reveal_strlit("-match");
    lemma_comparison(word, field, operator, value);
    if spelled(operator, "-like"@) {
        lemma_spelled(operator, "-like"@);
    }
    if spelled(operator, "-eq"@) {
        lemma_spelled(operator, "-eq"@);
    }
    if spelled(operator, "-match"@) {
        lemma_spelled(operator, "-match"@);
    }
}

// Sorting.

/// A sort names its field, with or without an option before it; it sorts
/// upwards where it is not told to sort downwards, wherever it is told so.
pub proof fn law_sorts(
    word: Seq<char>,
    field: FileField,
    down: Seq<char>,
    up: Seq<char>,
    property: Seq<char>,
)
    requires
        names_field(word, field),
        spelled(down, "-descending"@),
        spelled(up, "-ascending"@),
        spelled(property, "-property"@),
    ensures
        sort_scan(seq![word], 0, None, false) == Some(FileSort { field, descending: false }),
        sort_scan(seq![word, up], 0, None, false) == Some(FileSort { field, descending: false }),
        sort_scan(seq![word, down], 0, None, false) == Some(FileSort { field, descending: true }),
        sort_scan(seq![down, word], 0, None, false) == Some(FileSort { field, descending: true }),
        sort_scan(seq![property, word], 0, None, false) == Some(
            FileSort { field, descending: false },
        ),
        sort_scan(seq![word, word], 0, None, false) is None,
        sort_scan(Seq::empty(), 0, None, false) is None,
{
    reveal_strlit("-descending");
    reveal_strlit("-ascending");
    reveal_strlit("-property");
    lemma_spelled(down, "-descending"@);
    lemma_spelled(up, "-ascending"@);
    lemma_spelled(property, "-property"@);
    lemma_field_word(word, field);
    law_fields(word, field);
    reveal_with_fuel(sort_scan, 4);
}

// Projections.

/// Whether a word names a column, in any case.
pub open spec fn names_column(word: Seq<char>, column: MetadataField) -> bool {
    match column {
        MetadataField::FullName => spelled(word, "fullname"@),
        MetadataField::Name => spelled(word, "name"@),
        MetadataField::Length => spelled(word, "length"@),
        MetadataField::LastWriteTime => spelled(word, "lastwritetime"@),
        MetadataField::Mode => spelled(word, "mode"@),
    }
}

proof fn lemma_column_word(word: Seq<char>, column: MetadataField)
    requires
        names_column(word, column),
        bare(word),
    ensures
        word.len() > 0,
        trimmed(word) == word,
        column_named(lowered(word)) == Some(column),
        lowered(word).len() > 0 && lowered(word)[0] != '-',
        word[0] != '-',
{
    lemma_field_words();
    law_tight(word);
    let lower = match column {
        MetadataField::FullName => "fullname"@,
        MetadataField::Name => "name"@,
        MetadataField::Length => "length"@,
        MetadataField::LastWriteTime => "lastwritetime"@,
        MetadataField::Mode => "mode"@,
    };
    lemma_spelled(word, lower);
    assert(same_letter(word[0], lower[0]));
}

/// The columns of a projection are those that it names, in order, with commas
/// between them; the full name alone is asked for in a way of its own.
#[verifier::rlimit(40)]
pub proof fn law_columns_named(
    a: Seq<char>,
    first: MetadataField,
    b: Seq<char>,
    second: MetadataField,
    expand: Seq<char>,
    full: Seq<char>,
)
    requires
        names_column(a, first) && names_column(b, second),
        place(a) && place(b),
        spelled(expand, "-expandproperty"@),
        spelled(full, "fullname"@),
    ensures
        projection_of(seq![a]) == Some(ProjectionView::Metadata { fields: seq![first] }),
        projection_of(seq![a + seq![','] + b]) == Some(
            ProjectionView::Metadata { fields: seq![first, second] },
        ),
        projection_of(seq![a + seq![','], b]) == Some(
            ProjectionView::Metadata { fields: seq![first, second] },
        ),
        projection_of(seq![expand, full]) == Some(ProjectionView::FullNameOnly),
{
    reveal_strlit("-expandproperty");
    reveal_strlit("fullname");
    reveal_strlit(" ");
    assert(" "@ =~= seq![' ']);
    lemma_field_words();
    lemma_column_word(a, first);
    lemma_column_word(b, second);
    lemma_spelled(expand, "-expandproperty"@);
    lemma_spelled(full, "fullname"@);
    assert(crate::case::ascii_lowercase("-expandproperty"@) == "-expandproperty"@) by {
        lemma_spelled("-expandproperty"@, "-expandproperty"@);
    }
    assert(crate::case::ascii_lowercase("fullname"@) == "fullname"@) by {
        lemma_spelled("fullname"@, "fullname"@);
    }
    let e = Seq::<char>::empty();
    law_split(a, ',', b);
    law_split(b, ',', e);
    let one = seq![a];
    reveal_with_fuel(columns_of, 3);
    assert(one.drop_last() =~= Seq::<Seq<char>>::empty());
    assert(columns_of(one) == Some(seq![first])) by {
        assert(Seq::<MetadataField>::empty().push(first) =~= seq![first]);
    }
    assert(seq![a] + seq![b] =~= seq![a, b]);
    let two = seq![a, b];
    assert(two.drop_last() =~= one);
    assert(columns_of(two) == Some(seq![first, second])) by {
        assert(seq![first].push(second) =~= seq![first, second]);
    }
    let spaced = seq![' '] + b;
    law_trim(seq![' '], b, e);
    assert(seq![' '] + b + e =~= spaced);
    let wide = seq![a, spaced];
    assert(wide.drop_last() =~= one);
    assert(columns_of(wide) == Some(seq![first, second])) by {
        assert(seq![first].push(second) =~= seq![first, second]);
    }
    assert(!spaced.contains(',')) by {
        if spaced.contains(',') {
            let i = spaced.index_of(',');
            assert(b[i - 1] == ',');
        }
    }
    law_split(a, ',', spaced);
    law_split(spaced, ',', e);
    assert(seq![a] + seq![spaced] =~= wide);
    let tokens = seq![a + seq![','], b];
    assert(tokens.drop_last() =~= seq![a + seq![',']]);
    reveal_with_fuel(joined, 3);
    assert(joined(tokens, " "@) =~= a + seq![','] + spaced);
    assert(crate::case::ascii_lowercase(a + seq![','])[0] != '-') by {
        assert((a + seq![','])[0] == a[0]);
    }
    assert(!super::filters::expands(tokens)) by {
        if super::filters::expands(tokens) {
            let x = crate::case::ascii_lowercase(tokens[0]);
            assert(x == "-expandproperty"@);
            assert(x[0] == '-');
        }
    }
}

/// A projection shows the first so many of its rows where it is told so, and
/// cannot be told to skip some.
pub proof fn law_first_rows(
    word: Seq<char>,
    column: MetadataField,
    first: Seq<char>,
    count: usize,
    other: Seq<char>,
)
    requires
        names_column(word, column),
        place(word),
        spelled(first, "-first"@),
        spelled(other, "-skip"@) || spelled(other, "-last"@),
    ensures
        limited_projection(seq![word, first, decimal(count as nat)]) == Some(
            (ProjectionView::Metadata { fields: seq![column] }, Some(count)),
        ),
        limited_projection(seq![first, decimal(count as nat), word]) == Some(
            (ProjectionView::Metadata { fields: seq![column] }, Some(count)),
        ),
        limited_projection(seq![word]) == Some(
            (ProjectionView::Metadata { fields: seq![column] }, None::<usize>),
        ),
        limited_projection(seq![word, other, decimal(count as nat)]) is None,
{
    reveal_strlit("-first");
    reveal_strlit("-skip");
    reveal_strlit("-last");
    reveal_strlit("-expandproperty");
    reveal_strlit("fullname");
    lemma_column_word(word, column);
    lemma_spelled(first, "-first"@);
    if spelled(other, "-skip"@) {
        lemma_spelled(other, "-skip"@);
    } else {
        lemma_spelled(other, "-last"@);
    }
    law_number_round_trip(count);
    law_columns_named(word, column, word, column, "-expandproperty"@, "fullname"@);
    reveal_with_fuel(limit_scan, 4);
    let none = Seq::<Seq<char>>::empty();
    assert(none.push(word) =~= seq![word]);
}

// Measures.

/// Files are counted, or their lengths are summed up where that is the
/// property.
pub proof fn law_measures(
    word: Seq<char>,
    property: Seq<char>,
    sum: Seq<char>,
    other: Seq<char>,
)
    requires
        spelled(word, "length"@),
        spelled(property, "-property"@),
        spelled(sum, "-sum"@) || spelled(sum, "-minimum"@) || spelled(sum, "-maximum"@) || spelled(
            sum,
            "-average"@,
        ),
        lowered(other).len() > 0 && lowered(other)[0] != '-',
        lowered(other) != "length"@,
    ensures
        measure_of(Seq::empty()) == Some(MeasureKind::Count),
        measure_of(seq![word]) == Some(MeasureKind::Length),
        measure_of(seq![property, word]) == Some(MeasureKind::Length),
        measure_of(seq![property, word, sum]) == Some(MeasureKind::Length),
        measure_of(seq![word, sum]) == Some(MeasureKind::Length),
        measure_of(seq![other]) is None,
        measure_of(seq![word, word]) is None,
{
    reveal_strlit("-property");
    reveal_strlit("-sum");
    reveal_strlit("-minimum");
    reveal_strlit("-maximum");
    reveal_strlit("-average");
    lemma_field_words();
    lemma_spelled(word, "length"@);
    lemma_spelled(property, "-property"@);
    if spelled(sum, "-sum"@) {
        lemma_spelled(sum, "-sum"@);
    } else if spelled(sum, "-minimum"@) {
        lemma_spelled(sum, "-minimum"@);
    } else if spelled(sum, "-maximum"@) {
        lemma_spelled(sum, "-maximum"@);
    } else {
        lemma_spelled(sum, "-average"@);
    }
    reveal_with_fuel(measure_scan, 4);
}

// Pipelines.

/// Three calm commands with pipes between them are three parts.
pub proof fn lemma_three_parts(a: Seq<char>, b: Seq<char>, c: Seq<char>)
    requires
        calm(a) && calm(b) && calm(c),
    ensures
        parts_of(a + seq![' ', '|', ' '] + b + seq![' ', '|', ' '] + c, '|') == Some(seq![a, b, c]),
{
    let e = Seq::<char>::empty();
    let space = seq![' '];
    let s = a + seq![' ', '|', ' '] + b + seq![' ', '|', ' '] + c;
    let first = a + space;
    let second = space + b + space;
    let third = space + c;
    lemma_spaced(a, e, space);
    lemma_spaced(b, space, space);
    lemma_spaced(c, space, e);
    assert(e + a + space =~= first);
    assert(space + c + e =~= third);
    let more = second + seq!['|'] + third;
    assert(s =~= first + seq!['|'] + more);
    lemma_parts_step(first, '|', e, more);
    lemma_parts_step(second, '|', e, third);
    lemma_parts_calm(third, '|', e);
    assert(e + first =~= first && e + second =~= second && e + third =~= third);
    let parts = parts_from(s, '|', None, e);
    assert(parts =~= seq![a, b, c]);
    assert(parts[0] == a && parts[1] == b && parts[2] == c);
}

proof fn lemma_spaced(s: Seq<char>, before: Seq<char>, after: Seq<char>)
    requires
        calm(s),
        before.len() == 0 || before == seq![' '],
        after.len() == 0 || after == seq![' '],
    ensures
        trimmed(before + s + after) == s,
        forall|i: int|
            0 <= i < (before + s + after).len() ==> #[trigger] (before + s + after)[i] != '"'
                && (before + s + after)[i] != '\'' && (before + s + after)[i] != '|',
{
    law_trim(before, s, after);
    let all = before + s + after;
    assert forall|i: int| 0 <= i < all.len() implies #[trigger] all[i] != '"' && all[i] != '\''
        && all[i] != '|' by {
        if i < before.len() {
            assert(all[i] == ' ');
        } else if i < before.len() + s.len() {
            assert(all[i] == s[i - before.len()]);
        } else {
            assert(all[i] == ' ');
        }
    }
}

/// A listing of all files below a place that fit a pattern.
pub open spec fn recursive_listing(
    name: Seq<char>,
    path_w: Seq<char>,
    root: Seq<char>,
    pattern_w: Seq<char>,
    pattern: Seq<char>,
    word: Seq<char>,
) -> bool {
    &&& listing_word(name)
    &&& path_word(path_w) && pattern_word(pattern_w) && tells(word, Told::Recurse)
    &&& bare(name) && bare(path_w) && place(root) && bare(pattern_w) && bare(pattern) && bare(word)
}

/// The words of such a listing.
pub open spec fn listing_words(
    name: Seq<char>,
    path_w: Seq<char>,
    root: Seq<char>,
    pattern_w: Seq<char>,
    pattern: Seq<char>,
    word: Seq<char>,
) -> Seq<Seq<char>> {
    seq![name, path_w, root, pattern_w, pattern, word]
}

proof fn lemma_listing(
    name: Seq<char>,
    path_w: Seq<char>,
    root: Seq<char>,
    pattern_w: Seq<char>,
    pattern: Seq<char>,
    word: Seq<char>,
    cwd: Option<Seq<char>>,
)
    requires
        recursive_listing(name, path_w, root, pattern_w, pattern, word),
    ensures
        ({
            let words = listing_words(name, path_w, root, pattern_w, pattern, word);
            &&& all_bare(words)
            &&& super::commands::call_of(call(words)) matches Some((first, args))
                && super::commands::lists(first) && (super::arguments::gci_search(args, cwd)
                matches Some(options) && options.recurse && options.roots == seq![root]
                && super::commands::pipeline_query(options, 1000) == (FindQueryView {
                root: Some(root),
                pattern,
                files_only: true,
                limit: 1000,
            }) && super::commands::pipeline_query(options, 200) == (FindQueryView {
                root: Some(root),
                pattern,
                files_only: true,
                limit: 200,
            }))
        }),
{
    let args = seq![path_w, root, pattern_w, pattern, word];
    let words = listing_words(name, path_w, root, pattern_w, pattern, word);
    assert(seq![name] + args =~= words);
    assert(all_bare(words));
    lemma_listing_word(name, args);
    law_listing_options(path_w, root, pattern_w, pattern, word, Told::Recurse, cwd);
}

/// Files that are listed are filtered and sorted: a thousand are asked for,
/// and the full names are shown.
#[verifier::rlimit(40)]
pub proof fn law_find_pipeline(
    name: Seq<char>,
    path_w: Seq<char>,
    root: Seq<char>,
    pattern_w: Seq<char>,
    pattern: Seq<char>,
    word: Seq<char>,
    filter: Seq<char>,
    a: Seq<char>,
    kept: FileField,
    operator: Seq<char>,
    value: Seq<char>,
    sort: Seq<char>,
    b: Seq<char>,
    key: FileField,
    down: Seq<char>,
    cwd: Option<Seq<char>>,
)
    requires
        recursive_listing(name, path_w, root, pattern_w, pattern, word),
        spelled(filter, "where-object"@) && names_field(a, kept) && spelled(operator, "-like"@),
        spelled(sort, "sort-object"@) && names_field(b, key) && spelled(down, "-descending"@),
        bare(filter) && bare(a) && bare(operator) && bare(value) && value.last() != '}',
        bare(sort) && bare(b) && bare(down),
    ensures
        find_pipeline_of(
            call(listing_words(name, path_w, root, pattern_w, pattern, word)) + seq![' ', '|', ' ']
                + call(seq![filter, a, operator, value]) + seq![' ', '|', ' '] + call(
                seq![sort, b, down],
            ),
            cwd,
        ) == Some(
            OperationView::FindPipeline(
                FindPipelineView {
                    query: FindQueryView {
                        root: Some(root),
                        pattern,
                        files_only: true,
                        limit: 1000,
                    },
                    where_filter: Some(FileWhereView::Like { field: kept, pattern: value }),
                    sort: Some(FileSort { field: key, descending: true }),
                    projection: ProjectionView::FullNameOnly,
                    limit: None,
                },
            ),
        ),
{
    lemma_listing(name, path_w, root, pattern_w, pattern, word, cwd);
    let p = call(listing_words(name, path_w, root, pattern_w, pattern, word));
    let q = call(seq![filter, a, operator, value]);
    let r = call(seq![sort, b, down]);
    assert(all_bare(seq![filter, a, operator, value]));
    assert(all_bare(seq![sort, b, down]));
    lemma_call_is_calm(listing_words(name, path_w, root, pattern_w, pattern, word));
    lemma_call_is_calm(seq![filter, a, operator, value]);
    lemma_call_is_calm(seq![sort, b, down]);
    lemma_three_parts(p, q, r);
    let parts = seq![p, q, r];
    lemma_filter_step(filter, a, kept, operator, value);
    let s0 = no_steps();
    let s1 = StepsView {
        where_filter: Some(FileWhereView::Like { field: kept, pattern: value }),
        ..s0
    };
    lemma_sort_step(sort, b, key, down, s1);
    assert(parts.drop_last() =~= seq![p, q]);
    assert(seq![p, q].drop_last() =~= seq![p]);
    assert(steps_of(seq![p]) == Some(s0));
    assert(steps_of(seq![p, q]) == Some(s1));
    assert(super::commands::without_layout(parts) == Some(parts));
    assert(pipeline_of(parts, cwd) is Some);
}

proof fn lemma_filter_step(
    filter: Seq<char>,
    a: Seq<char>,
    kept: FileField,
    operator: Seq<char>,
    value: Seq<char>,
)
    requires
        spelled(filter, "where-object"@) && names_field(a, kept) && spelled(operator, "-like"@),
        bare(filter) && bare(a) && bare(operator) && bare(value) && value.last() != '}',
    ensures
        with_step(no_steps(), call(seq![filter, a, operator, value])) == Some(
            StepsView {
                where_filter: Some(FileWhereView::Like { field: kept, pattern: value }),
                ..no_steps()
            },
        ),
{
    let args = seq![a, operator, value];
    assert(seq![filter] + args =~= seq![filter, a, operator, value]);
    assert(all_bare(seq![filter, a, operator, value]));
    assert(lower_ascii("where-object"@)) by {
        reveal_strlit("where-object");
    }
    lemma_call_named(filter, "where-object"@, args);
    law_filters(a, kept, operator, value);
}

proof fn lemma_sort_step(
    sort: Seq<char>,
    b: Seq<char>,
    key: FileField,
    down: Seq<char>,
    steps: StepsView,
)
    requires
        spelled(sort, "sort-object"@) && names_field(b, key) && spelled(down, "-descending"@),
        bare(sort) && bare(b) && bare(down),
    ensures
        steps.sort is None ==> with_step(steps, call(seq![sort, b, down])) == Some(
            StepsView { sort: Some(FileSort { field: key, descending: true }), ..steps },
        ),
        super::commands::call_of(call(seq![sort, b, down])) matches Some((name, _))
            && !super::commands::formats(name),
{
    let args = seq![b, down];
    assert(seq![sort] + args =~= seq![sort, b, down]);
    assert(all_bare(seq![sort, b, down]));
    assert(lower_ascii("sort-object"@)) by {
        reveal_strlit("sort-object");
    }
    lemma_call_named(sort, "sort-object"@, args);
    law_sorts(b, key, down, "-ascending"@, "-property"@);
    reveal_strlit("sort-object");
    reveal_strlit("sort");
    reveal_strlit("format-table");
    reveal_strlit("ft");
    reveal_strlit("format-list");
    reveal_strlit("fl");
    reveal_strlit("where-object");
    reveal_strlit("where");
    reveal_strlit("?");
    assert("sort-object"@[0] != "format-list"@[0]);
}

/// A listing with columns behind it shows two hundred files; with a measure
/// behind it a thousand are measured.
pub proof fn law_find_projection(
    name: Seq<char>,
    path_w: Seq<char>,
    root: Seq<char>,
    pattern_w: Seq<char>,
    pattern: Seq<char>,
    word: Seq<char>,
    select: Seq<char>,
    a: Seq<char>,
    column: MetadataField,
    measure: Seq<char>,
    cwd: Option<Seq<char>>,
)
    requires
        recursive_listing(name, path_w, root, pattern_w, pattern, word),
        spelled(select, "select-object"@) && names_column(a, column) && place(a) && bare(select),
        spelled(measure, "measure-object"@) && bare(measure),
    ensures
        find_projection_of(
            call(listing_words(name, path_w, root, pattern_w, pattern, word)) + seq![' ', '|', ' ']
                + call(seq![select, a]),
            cwd,
        ) == Some(
            OperationView::FindProjection(
                FindProjectionView {
                    query: FindQueryView {
                        root: Some(root),
                        pattern,
                        files_only: true,
                        limit: 200,
                    },
                    projection: ProjectionView::Metadata { fields: seq![column] },
                },
            ),
        ),
        find_measure_of(
            call(listing_words(name, path_w, root, pattern_w, pattern, word)) + seq![' ', '|', ' ']
                + call(seq![measure]),
            cwd,
        ) == Some(
            OperationView::FindMeasure(
                FindMeasureView {
                    query: FindQueryView {
                        root: Some(root),
                        pattern,
                        files_only: true,
                        limit: 1000,
                    },
                    where_filter: None,
                    measure: MeasureKind::Count,
                },
            ),
        ),
{
    reveal_strlit("select-object");
    reveal_strlit("measure-object");
    reveal_strlit("-expandproperty");
    reveal_strlit("fullname");
    let words = listing_words(name, path_w, root, pattern_w, pattern, word);
    lemma_listing(name, path_w, root, pattern_w, pattern, word, cwd);
    let none = Seq::<Seq<char>>::empty();
    assert(seq![select] + seq![a] =~= seq![select, a]);
    assert(seq![measure] + none =~= seq![measure]);
    assert(all_bare(seq![select, a]));
    assert(all_bare(seq![measure]));
    lemma_call_named(select, "select-object"@, seq![a]);
    lemma_call_named(measure, "measure-object"@, none);
    law_pipe(words, seq![select, a]);
    law_pipe(words, seq![measure]);
    law_columns_named(a, column, a, column, "-expandproperty"@, "fullname"@);
    assert(measure_of(none) == Some(MeasureKind::Count));
}

/// Directories are listed with columns where they are asked for.
pub proof fn law_directory_pipeline(
    name: Seq<char>,
    path_w: Seq<char>,
    root: Seq<char>,
    pattern_w: Seq<char>,
    pattern: Seq<char>,
    word: Seq<char>,
    select: Seq<char>,
    a: Seq<char>,
    column: MetadataField,
    cwd: Option<Seq<char>>,
)
    requires
        listing_word(name),
        path_word(path_w) && pattern_word(pattern_w) && tells(word, Told::Directories),
        bare(name) && bare(path_w) && place(root) && bare(pattern_w) && bare(pattern) && bare(word),
        spelled(select, "select-object"@) && names_column(a, column) && place(a) && bare(select),
    ensures
        directory_pipeline_of(
            call(listing_words(name, path_w, root, pattern_w, pattern, word)) + seq![' ', '|', ' ']
                + call(seq![select, a]),
            cwd,
        ) == Some(
            OperationView::ListDirectoryPipeline(
                DirectoryPipelineView {
                    list: DirectoryListView {
                        root,
                        filter: Some(pattern),
                        names_only: false,
                        files_only: false,
                        directories_only: true,
                    },
                    name_match: None,
                    projection: ProjectionView::Metadata { fields: seq![column] },
                },
            ),
        ),
{
    reveal_strlit("select-object");
    reveal_strlit("-expandproperty");
    reveal_strlit("fullname");
    reveal_strlit("format-table");
    reveal_strlit("ft");
    reveal_strlit("format-list");
    reveal_strlit("fl");
    let args = seq![path_w, root, pattern_w, pattern, word];
    let words = listing_words(name, path_w, root, pattern_w, pattern, word);
    assert(seq![name] + args =~= words);
    assert(all_bare(words));
    lemma_listing_word(name, args);
    law_listing_options(path_w, root, pattern_w, pattern, word, Told::Directories, cwd);
    assert(seq![select] + seq![a] =~= seq![select, a]);
    assert(all_bare(seq![select, a]));
    lemma_call_named(select, "select-object"@, seq![a]);
    law_pipe(words, seq![select, a]);
    law_columns_named(a, column, a, column, "-expandproperty"@, "fullname"@);
}

/// A search behind a reading looks into that file.
#[verifier::spinoff_prover]
#[verifier::rlimit(60)]
pub proof fn law_search_behind_reading(
    read: Seq<char>,
    path: Seq<char>,
    search: Seq<char>,
    text: Seq<char>,
    context_w: Seq<char>,
    around: usize,
)
    requires
        reading_word(read) && bare(read) && bare(path),
        lowered(path).len() > 0 && lowered(path)[0] != '-',
        search_word(search) && bare(search) && bare(text),
        lowered(text).len() > 0 && lowered(text)[0] != '-',
        spelled(context_w, "-context"@) && bare(context_w),
    ensures
        content_search_of(
            call(seq![read, path]) + seq![' ', '|', ' '] + call(
                seq![search, text, context_w, decimal(around as nat)],
            ),
        ) == Some(
            OperationView::GrepContext(
                GrepContextQueryView {
                    roots: seq![path],
                    pattern: text,
                    before: around,
                    after: around,
                    case_sensitive: false,
                    simple_match: false,
                    limit: 200,
                },
            ),
        ),
{
    let count = decimal(around as nat);
    let read_args = seq![path];
    let search_args = seq![text, context_w, count];
    lemma_decimal_is_bare(around as nat);
    assert(seq![read] + read_args =~= seq![read, path]);
    assert(seq![search] + search_args =~= seq![search, text, context_w, count]);
    assert(all_bare(seq![read, path]));
    assert(all_bare(seq![search, text, context_w, count]));
    lemma_reading_word(read, read_args);
    lemma_search_word(search, search_args);
    law_pipe(seq![read, path], seq![search, text, context_w, count]);
    lemma_search_args(text, context_w, around);
    lemma_single_path(path);
}

proof fn lemma_single_path(path: Seq<char>)
    requires
        lowered(path).len() > 0 && lowered(path)[0] != '-',
    ensures
        super::content::content_path_scan(seq![path], 0, Seq::empty()) == Some(path),
{
    lemma_not_path_option(path);
    let none = Seq::<Seq<char>>::empty();
    assert(none.push(path) =~= seq![path]);
    assert(super::content::content_path_scan(seq![path], 1, none.push(path)) == Some(path));
}

proof fn lemma_search_args(text: Seq<char>, context_w: Seq<char>, around: usize)
    requires
        lowered(text).len() > 0 && lowered(text)[0] != '-',
        spelled(context_w, "-context"@),
    ensures
        ({
            let args = seq![text, context_w, decimal(around as nat)];
            &&& crate::case::any_ignoring_case(args, "-context"@)
            &&& super::content::select_options(args, false) matches Some(options)
                && options.pattern == Some(text) && options.context == Some((around, around))
                && !options.case_sensitive && !options.simple_match
        }),
{
    lemma_options();
    lemma_not_path_option(text);
    lemma_spelled(context_w, "-context"@);
    let count = decimal(around as nat);
    let args = seq![text, context_w, count];
    super::reading_laws::law_context_numbers(around, around);
    let o0 = no_select();
    let o1 = SelectView { positional: o0.positional.push(text), ..o0 };
    let o2 = SelectView { context: Some((around, around)), ..o1 };
    assert(o1.positional =~= seq![text]);
    assert(context_of(count) == Some((around, around)));
    assert(select_scan(args, 3, o2, false) == Some(o2));
    assert(select_scan(args, 1, o1, false) == Some(o2));
    assert(select_scan(args, 0, o0, false) == Some(o2));
    assert(crate::case::same_ignoring_case(args[1], "-context"@)) by {
        lemma_spelled("-context"@, "-context"@);
    }
}

/// A search behind a listing looks into the files below that place.
pub proof fn law_search_behind_listing(
    name: Seq<char>,
    path_w: Seq<char>,
    root: Seq<char>,
    pattern_w: Seq<char>,
    pattern: Seq<char>,
    word: Seq<char>,
    search: Seq<char>,
    text: Seq<char>,
    cwd: Option<Seq<char>>,
)
    requires
        recursive_listing(name, path_w, root, pattern_w, pattern, word),
        search_word(search) && bare(search) && bare(text),
        lowered(text).len() > 0 && lowered(text)[0] != '-',
    ensures
        listing_search_of(
            call(listing_words(name, path_w, root, pattern_w, pattern, word)) + seq![' ', '|', ' ']
                + call(seq![search, text]),
            cwd,
        ) == Some(
            OperationView::Grep(
                GrepQueryView {
                    roots: seq![root],
                    pattern: text,
                    case_sensitive: false,
                    simple_match: false,
                    limit: 200,
                },
            ),
        ),
{
    let args = seq![text];
    assert(seq![search] + args =~= seq![search, text]);
    assert(all_bare(seq![search, text]));
    lemma_search_word(search, args);
    let words = listing_words(name, path_w, root, pattern_w, pattern, word);
    lemma_listing(name, path_w, root, pattern_w, pattern, word, cwd);
    law_pipe(words, seq![search, text]);
    assert(pattern_scan(args, 0, None) == Some(text)) by {
        lemma_options();
        lemma_not_path_option(text);
        assert(pattern_scan(args, 1, Some(text)) == Some(text));
    }
    assert(!crate::case::any_ignoring_case(args, "-casesensitive"@)) by {
        lemma_options();
        lemma_no_flag(text, "-casesensitive"@);
    }
    assert(!crate::case::any_ignoring_case(args, "-simplematch"@)) by {
        lemma_options();
        lemma_no_flag(text, "-simplematch"@);
    }
}

proof fn lemma_no_flag(text: Seq<char>, flag: Seq<char>)
    requires
        lowered(text).len() > 0 && lowered(text)[0] != '-',
        lower_ascii(flag) && flag.len() > 0 && flag[0] == '-',
    ensures
        !crate::case::same_ignoring_case(text, flag),
{
    lemma_spelled(flag, flag);
    if crate::case::ascii_lowercase(text) == flag {
        assert forall|i: int| 0 <= i < text.len() implies (#[trigger] text[i] as u32) < 128 by {
            assert(crate::case::ascii_lowercase(text)[i] == flag[i]);
        }
        assert(lowered(text) == flag);
    }
}

} // verus!
