//! The arguments of the commands that filter, sort, measure and project.
#![verifier::loop_isolation(false)]

use super::arguments::{token_at, tokens_left};
use super::content::{get_number, number_at};
use crate::backends::directory::{
    DirectoryMatchField, DirectoryNameMatch, DirectoryNameMatchView,
};
use crate::backends::projection::{
    FileField, FileSort, FileWhere, FileWhereView, MeasureKind, MetadataField, Projection,
    ProjectionView, ReadOnlyExternal, ReadOnlyExternalView,
};
use crate::case::{eq_ignore_ascii_case, lowered, same_ignoring_case, to_lowercase};
use crate::number::{parse_usize, read_unsigned};
use crate::split::{join, joined, split_char, split_on};
use crate::text::{
    push_item, same, starts_char, starts_with_char, strip_prefixes, trim, trim_end_class,
    trim_start_class, trimmed, trimmed_end, trimmed_start, without_prefixes, CharClass,
};
use vstd::prelude::*;
use vstd::string::*;

verus! {

// Projections.

/// The column with the given name in lower case.
pub open spec fn column_named(name: Seq<char>) -> Option<MetadataField> {
    if name == "fullname"@ {
        Some(MetadataField::FullName)
    } else if name == "name"@ {
        Some(MetadataField::Name)
    } else if name == "length"@ {
        Some(MetadataField::Length)
    } else if name == "lastwritetime"@ {
        Some(MetadataField::LastWriteTime)
    } else if name == "mode"@ {
        Some(MetadataField::Mode)
    } else {
        None
    }
}

fn find_column(name: &str) -> (r: Option<MetadataField>)
    ensures
        r == column_named(name@),
{
    if same(name, "fullname") {
        Some(MetadataField::FullName)
    } else if same(name, "name") {
        Some(MetadataField::Name)
    } else if same(name, "length") {
        Some(MetadataField::Length)
    } else if same(name, "lastwritetime") {
        Some(MetadataField::LastWriteTime)
    } else if same(name, "mode") {
        Some(MetadataField::Mode)
    } else {
        None
    }
}

/// The columns that the parts name, where each part that is not blank names
/// one.
pub open spec fn columns_of(parts: Seq<Seq<char>>) -> Option<Seq<MetadataField>>
    decreases parts.len(),
{
    if parts.len() == 0 {
        Some(Seq::empty())
    } else {
        match columns_of(parts.drop_last()) {
            Some(before) => {
                let name = trimmed(parts.last());
                if name.len() == 0 {
                    Some(before)
                } else {
                    match column_named(lowered(name)) {
                        Some(column) => Some(before.push(column)),
                        None => None,
                    }
                }
            },
            None => None,
        }
    }
}

proof fn lemma_columns_prefix(parts: Seq<Seq<char>>, n: int)
    requires
        0 <= n <= parts.len(),
        columns_of(parts.take(n)) is None,
    ensures
        columns_of(parts) is None,
    decreases parts.len() - n,
{
    if n < parts.len() {
        assert(parts.take(n + 1).drop_last() =~= parts.take(n));
        lemma_columns_prefix(parts, n + 1);
    } else {
        assert(parts.take(n) =~= parts);
    }
}

/// Whether the arguments ask for the values of one property.
pub open spec fn expands(tokens: Seq<Seq<char>>) -> bool {
    tokens.len() >= 2 && same_ignoring_case(tokens[0], "-expandproperty"@)
}

/// What the arguments of a projection ask for: the full names alone, or a
/// list of columns.
pub open spec fn projection_of(tokens: Seq<Seq<char>>) -> Option<ProjectionView> {
    if expands(tokens) {
        if same_ignoring_case(tokens[1], "fullname"@) {
            Some(ProjectionView::FullNameOnly)
        } else {
            None
        }
    } else {
        match columns_of(split_on(joined(tokens, " "@), ',')) {
            Some(fields) => if fields.len() > 0 {
                Some(ProjectionView::Metadata { fields })
            } else {
                None
            },
            None => None,
        }
    }
}

/// What the arguments of a projection ask for.
pub fn parse_select_projection(tokens: &Vec<String>) -> (r: Option<Projection>)
    ensures
        r.deep_view() == projection_of(tokens.deep_view()),
{
    let ghost view = tokens.deep_view();
    if tokens.len() >= 2 {
        assert(view[0] == tokens[0]@);
        assert(view[1] == tokens[1]@);
        if eq_ignore_ascii_case(tokens[0].as_str(), "-expandproperty") {
            if eq_ignore_ascii_case(tokens[1].as_str(), "fullname") {
                return Some(Projection::FullNameOnly);
            }
            return None;
        }
    }
    let all = join(tokens, " ");
    let parts = split_char(all.as_str(), ',');
    let ghost names = parts.deep_view();
    let mut fields: Vec<MetadataField> = Vec::new();
    let mut i: usize = 0;
    assert(fields.deep_view() =~= Seq::<MetadataField>::empty());
    while i < parts.len()
        invariant
            i <= parts.len(),
            columns_of(names.take(i as int)) == Some(fields.deep_view()),
        decreases parts.len() - i,
    {
        proof {
            assert(names.take(i + 1).drop_last() =~= names.take(i as int));
            assert(names.take(i + 1).last() == parts[i as int]@);
        }
        let name = trim(parts[i].as_str());
        if name.as_str().unicode_len() > 0 {
            let lower = to_lowercase(name.as_str());
            match find_column(lower.as_str()) {
                Some(column) => {
                    push_item(&mut fields, column);
                },
                None => {
                    proof {
                        lemma_columns_prefix(names, i + 1);
                    }
                    return None;
                },
            }
        }
        i += 1;
    }
    assert(names.take(i as int) =~= names);
    if fields.len() == 0 {
        None
    } else {
        Some(Projection::Metadata { fields })
    }
}

/// Takes the limit out of the arguments of a projection, from position `i`
/// on: the other arguments, and the limit.
pub open spec fn limit_scan(
    tokens: Seq<Seq<char>>,
    i: int,
    kept: Seq<Seq<char>>,
    limit: Option<usize>,
) -> Option<(Seq<Seq<char>>, Option<usize>)>
    decreases tokens_left(tokens, i),
{
    if i < 0 || i >= tokens.len() {
        Some((kept, limit))
    } else {
        let t = lowered(tokens[i]);
        if t == "-first"@ {
            match number_at(tokens, i + 1) {
                Some(count) => limit_scan(tokens, i + 2, kept, Some(count)),
                None => None,
            }
        } else if t == "-skip"@ || t == "-last"@ {
            None
        } else {
            limit_scan(tokens, i + 1, kept.push(tokens[i]), limit)
        }
    }
}

/// The projection and the limit that the arguments ask for.
pub open spec fn limited_projection(tokens: Seq<Seq<char>>) -> Option<
    (ProjectionView, Option<usize>),
> {
    match limit_scan(tokens, 0, Seq::empty(), None) {
        Some((kept, limit)) => match projection_of(kept) {
            Some(projection) => Some((projection, limit)),
            None => None,
        },
        None => None,
    }
}

/// The projection and the limit that the arguments ask for.
pub fn parse_select_projection_with_limit(tokens: &Vec<String>) -> (r: Option<
    (Projection, Option<usize>),
>)
    ensures
        match r {
            Some((projection, limit)) => limited_projection(tokens.deep_view()) == Some(
                (projection.deep_view(), limit),
            ),
            None => limited_projection(tokens.deep_view()) is None,
        },
{
    let ghost view = tokens.deep_view();
    let mut kept: Vec<String> = Vec::new();
    let mut limit: Option<usize> = None;
    let mut index: usize = 0;
    assert(kept.deep_view() =~= Seq::<Seq<char>>::empty());
    while index < tokens.len()
        invariant
            index <= tokens.len(),
            limit_scan(view, index as int, kept.deep_view(), limit) == limit_scan(
                view,
                0,
                Seq::empty(),
                None,
            ),
        decreases tokens.len() - index,
    {
        assert(view[index as int] == tokens[index as int]@);
        let lower = to_lowercase(tokens[index].as_str());
        let t = lower.as_str();
        if same(t, "-first") {
            match get_number(tokens, index + 1) {
                Some(count) => {
                    limit = Some(count);
                    index += 2;
                },
                None => {
                    return None;
                },
            }
        } else if same(t, "-skip") || same(t, "-last") {
            return None;
        } else {
            push_item(&mut kept, tokens[index].clone());
            index += 1;
        }
    }
    match parse_select_projection(&kept) {
        Some(projection) => Some((projection, limit)),
        None => None,
    }
}

// Filters.

/// The property with the given name, which may be written as a member of the
/// current object.
pub open spec fn field_named(value: Seq<char>) -> Option<FileField> {
    let name = lowered(
        trimmed_start(without_prefixes(value, "$_."@), CharClass::Only('.')),
    );
    if name == "fullname"@ || name == "full_name"@ {
        Some(FileField::FullName)
    } else if name == "name"@ {
        Some(FileField::Name)
    } else if name == "extension"@ {
        Some(FileField::Extension)
    } else if name == "length"@ {
        Some(FileField::Length)
    } else if name == "lastwritetime"@ || name == "last_write_time"@ {
        Some(FileField::LastWriteTime)
    } else {
        None
    }
}

/// The property with the given name.
pub fn parse_file_field(value: &str) -> (r: Option<FileField>)
    ensures
        r == field_named(value@),
{
    let a = strip_prefixes(value, "$_.");
    let b = trim_start_class(a.as_str(), CharClass::Only('.'));
    let lower = to_lowercase(b.as_str());
    let name = lower.as_str();
    if same(name, "fullname") || same(name, "full_name") {
        Some(FileField::FullName)
    } else if same(name, "name") {
        Some(FileField::Name)
    } else if same(name, "extension") {
        Some(FileField::Extension)
    } else if same(name, "length") {
        Some(FileField::Length)
    } else if same(name, "lastwritetime") || same(name, "last_write_time") {
        Some(FileField::LastWriteTime)
    } else {
        None
    }
}

/// Token `i` of a block, without the braces at the ends of the block.
pub open spec fn unbraced(tokens: Seq<Seq<char>>, i: int) -> Seq<char> {
    let opened = if i == 0 {
        trimmed_start(tokens[i], CharClass::Only('{'))
    } else {
        tokens[i]
    };
    if i == tokens.len() - 1 {
        trimmed_end(opened, CharClass::Only('}'))
    } else {
        opened
    }
}

/// The first `n` tokens of a block without the braces, where they are not
/// empty.
pub open spec fn block_tokens(tokens: Seq<Seq<char>>, n: nat) -> Seq<Seq<char>>
    decreases n,
{
    if n == 0 {
        Seq::empty()
    } else {
        let before = block_tokens(tokens, (n - 1) as nat);
        let token = unbraced(tokens, n - 1);
        if token.len() == 0 {
            before
        } else {
            before.push(token)
        }
    }
}

/// The tokens of a block without the braces.
pub fn unwrap_braced_tokens(tokens: &Vec<String>) -> (r: Vec<String>)
    ensures
        r.deep_view() == block_tokens(tokens.deep_view(), tokens.len() as nat),
{
    let ghost view = tokens.deep_view();
    let mut values: Vec<String> = Vec::new();
    let mut i: usize = 0;
    assert(values.deep_view() =~= Seq::<Seq<char>>::empty());
    while i < tokens.len()
        invariant
            i <= tokens.len(),
            values.deep_view() == block_tokens(view, i as nat),
        decreases tokens.len() - i,
    {
        assert(view[i as int] == tokens[i as int]@);
        let opened = if i == 0 {
            trim_start_class(tokens[i].as_str(), CharClass::Only('{'))
        } else {
            tokens[i].clone()
        };
        let token = if i == tokens.len() - 1 {
            trim_end_class(opened.as_str(), CharClass::Only('}'))
        } else {
            opened
        };
        assert(token@ == unbraced(view, i as int));
        if token.as_str().unicode_len() > 0 {
            push_item(&mut values, token);
        }
        i += 1;
    }
    values
}

/// A comparison in a block: the property, the operator in lower case, and the
/// value. Nothing else may stand in the block.
pub open spec fn comparison(tokens: Seq<Seq<char>>) -> Option<(FileField, Seq<char>, Seq<char>)> {
    let words = block_tokens(tokens, tokens.len());
    if words.len() == 3 {
        match field_named(words[0]) {
            Some(field) => Some((field, lowered(words[1]), words[2])),
            None => None,
        }
    } else {
        None
    }
}

fn read_comparison(tokens: &Vec<String>) -> (r: Option<(FileField, String, String)>)
    ensures
        match r {
            Some((field, operator, value)) => comparison(tokens.deep_view()) == Some(
                (field, operator@, value@),
            ),
            None => comparison(tokens.deep_view()) is None,
        },
{
    let words = unwrap_braced_tokens(tokens);
    if words.len() != 3 {
        return None;
    }
    proof {
        let view = words.deep_view();
        assert(view[0] == words[0]@ && view[1] == words[1]@ && view[2] == words[2]@);
    }
    match parse_file_field(words[0].as_str()) {
        Some(field) => Some((field, to_lowercase(words[1].as_str()), words[2].clone())),
        None => None,
    }
}

/// Which files the arguments of a filter keep.
pub open spec fn where_filter_of(tokens: Seq<Seq<char>>) -> Option<FileWhereView> {
    match comparison(tokens) {
        Some((field, operator, value)) => if operator == "-like"@ {
            Some(FileWhereView::Like { field, pattern: value })
        } else if operator == "-eq"@ {
            Some(FileWhereView::Equals { field, value })
        } else {
            None
        },
        None => None,
    }
}

/// Which files the arguments of a filter keep.
pub fn parse_where_object_filter(tokens: &Vec<String>) -> (r: Option<FileWhere>)
    ensures
        r.deep_view() == where_filter_of(tokens.deep_view()),
{
    match read_comparison(tokens) {
        Some((field, operator, value)) => {
            if same(operator.as_str(), "-like") {
                Some(FileWhere::Like { field, pattern: value })
            } else if same(operator.as_str(), "-eq") {
                Some(FileWhere::Equals { field, value })
            } else {
                None
            }
        },
        None => None,
    }
}

/// Which entries of a directory the arguments of a filter keep.
pub open spec fn name_match_of(tokens: Seq<Seq<char>>) -> Option<DirectoryNameMatchView> {
    match comparison(tokens) {
        Some((field, operator, value)) => if operator == "-match"@ {
            match field {
                FileField::Name => Some(
                    DirectoryNameMatchView { field: DirectoryMatchField::Name, pattern: value },
                ),
                FileField::FullName => Some(
                    DirectoryNameMatchView { field: DirectoryMatchField::FullName, pattern: value },
                ),
                _ => None,
            }
        } else {
            None
        },
        None => None,
    }
}

/// Which entries of a directory the arguments of a filter keep.
pub fn parse_name_match(tokens: &Vec<String>) -> (r: Option<DirectoryNameMatch>)
    ensures
        r.deep_view() == name_match_of(tokens.deep_view()),
{
    match read_comparison(tokens) {
        Some((field, operator, value)) => {
            if !same(operator.as_str(), "-match") {
                return None;
            }
            match field {
                FileField::Name => Some(
                    DirectoryNameMatch { field: DirectoryMatchField::Name, pattern: value },
                ),
                FileField::FullName => Some(
                    DirectoryNameMatch { field: DirectoryMatchField::FullName, pattern: value },
                ),
                _ => None,
            }
        },
        None => None,
    }
}

/// How the arguments of a sort order the files, from position `i` on.
pub open spec fn sort_scan(
    tokens: Seq<Seq<char>>,
    i: int,
    field: Option<FileField>,
    descending: bool,
) -> Option<FileSort>
    decreases tokens_left(tokens, i),
{
    if i < 0 || i >= tokens.len() {
        match field {
            Some(field) => Some(FileSort { field, descending }),
            None => None,
        }
    } else {
        let t = lowered(tokens[i]);
        if t == "-property"@ {
            match token_at(tokens, i + 1) {
                Some(value) => match field_named(value) {
                    Some(field) => sort_scan(tokens, i + 2, Some(field), descending),
                    None => None,
                },
                None => None,
            }
        } else if t == "-descending"@ {
            sort_scan(tokens, i + 1, field, true)
        } else if t == "-ascending"@ {
            sort_scan(tokens, i + 1, field, descending)
        } else if starts_char(t, '-') {
            None
        } else if field is Some {
            None
        } else {
            match field_named(tokens[i]) {
                Some(field) => sort_scan(tokens, i + 1, Some(field), descending),
                None => None,
            }
        }
    }
}

/// How the arguments of a sort order the files.
pub fn parse_sort_object(tokens: &Vec<String>) -> (r: Option<FileSort>)
    ensures
        r == sort_scan(tokens.deep_view(), 0, None, false),
{
    let ghost view = tokens.deep_view();
    let mut field: Option<FileField> = None;
    let mut descending = false;
    let mut index: usize = 0;
    while index < tokens.len()
        invariant
            index <= tokens.len(),
            sort_scan(view, index as int, field, descending) == sort_scan(view, 0, None, false),
        decreases tokens.len() - index,
    {
        assert(view[index as int] == tokens[index as int]@);
        let lower = to_lowercase(tokens[index].as_str());
        let t = lower.as_str();
        if same(t, "-property") {
            if tokens.len() - index <= 1 {
                return None;
            }
            assert(view[index + 1] == tokens[index + 1]@);
            match parse_file_field(tokens[index + 1].as_str()) {
                Some(named) => {
                    field = Some(named);
                    index += 2;
                },
                None => {
                    return None;
                },
            }
        } else if same(t, "-descending") {
            descending = true;
            index += 1;
        } else if same(t, "-ascending") {
            index += 1;
        } else if starts_with_char(t, '-') {
            return None;
        } else {
            if field.is_some() {
                return None;
            }
            match parse_file_field(tokens[index].as_str()) {
                Some(named) => {
                    field = Some(named);
                    index += 1;
                },
                None => {
                    return None;
                },
            }
        }
    }
    match field {
        Some(field) => Some(FileSort { field, descending }),
        None => None,
    }
}

/// The property that the arguments of a measure name, from position `i` on,
/// in lower case. The outer `None` is for arguments that cannot be read.
pub open spec fn measure_scan(
    tokens: Seq<Seq<char>>,
    i: int,
    property: Option<Seq<char>>,
) -> Option<Option<Seq<char>>>
    decreases tokens_left(tokens, i),
{
    if i < 0 || i >= tokens.len() {
        Some(property)
    } else {
        let t = lowered(tokens[i]);
        if t == "-property"@ {
            match token_at(tokens, i + 1) {
                Some(value) => measure_scan(tokens, i + 2, Some(lowered(value))),
                None => None,
            }
        } else if t == "-sum"@ || t == "-minimum"@ || t == "-maximum"@ || t == "-average"@ {
            measure_scan(tokens, i + 1, property)
        } else if starts_char(t, '-') {
            None
        } else if property is Some {
            None
        } else {
            measure_scan(tokens, i + 1, Some(t))
        }
    }
}

/// What the arguments of a measure ask for: the count, or what is measured
/// of the lengths.
pub open spec fn measure_of(tokens: Seq<Seq<char>>) -> Option<MeasureKind> {
    match measure_scan(tokens, 0, None) {
        Some(None) => Some(MeasureKind::Count),
        Some(Some(property)) => if property == "length"@ {
            Some(MeasureKind::Length)
        } else {
            None
        },
        None => None,
    }
}

/// What the arguments of a measure ask for.
pub fn parse_measure_object(tokens: &Vec<String>) -> (r: Option<MeasureKind>)
    ensures
        r == measure_of(tokens.deep_view()),
{
    let ghost view = tokens.deep_view();
    let mut property: Option<String> = None;
    let mut index: usize = 0;
    while index < tokens.len()
        invariant
            index <= tokens.len(),
            measure_scan(view, index as int, property.deep_view()) == measure_scan(view, 0, None),
        decreases tokens.len() - index,
    {
        assert(view[index as int] == tokens[index as int]@);
        let lower = to_lowercase(tokens[index].as_str());
        let t = lower.as_str();
        if same(t, "-property") {
            if tokens.len() - index <= 1 {
                return None;
            }
            assert(view[index + 1] == tokens[index + 1]@);
            property = Some(to_lowercase(tokens[index + 1].as_str()));
            index += 2;
        } else if same(t, "-sum") || same(t, "-minimum") || same(t, "-maximum") || same(
            t,
            "-average",
        ) {
            index += 1;
        } else if starts_with_char(t, '-') {
            return None;
        } else {
            if property.is_some() {
                return None;
            }
            property = Some(lower);
            index += 1;
        }
    }
    match property {
        None => Some(MeasureKind::Count),
        Some(property) => {
            if same(property.as_str(), "length") {
                Some(MeasureKind::Length)
            } else {
                None
            }
        },
    }
}

// Programs.

/// Whether a program call is one of the few that are known to change
/// nothing.
pub open spec fn allowlisted(external: ReadOnlyExternalView) -> bool {
    let args = external.args;
    &&& external.program == "git"@
    &&& {
        ||| args.len() == 2 && args[0] == "status"@ && (args[1] == "--short"@ || args[1]
            == "--porcelain"@ || args[1] == "--porcelain=v1"@ || args[1] == "--porcelain=v2"@)
        ||| args.len() == 2 && args[0] == "diff"@ && args[1] == "--stat"@
        ||| args.len() == 4 && args[0] == "log"@ && args[1] == "--oneline"@ && args[2] == "-n"@
            && log_count(args[3])
    }
}

/// Whether a text is a count of log entries that may be asked for.
pub open spec fn log_count(value: Seq<char>) -> bool {
    read_unsigned(value) matches Some(count) && 1 <= count <= 50
}

/// Whether a program call is one of the few that are known to change
/// nothing.
pub fn is_readonly_external_shape(external: &ReadOnlyExternal) -> (r: bool)
    ensures
        r == allowlisted(external.deep_view()),
{
    if !same(external.program.as_str(), "git") {
        return false;
    }
    let args = &external.args;
    let ghost view = args.deep_view();
    if args.len() == 2 {
        assert(view[0] == args[0]@ && view[1] == args[1]@);
        let flag = args[1].as_str();
        if same(args[0].as_str(), "status") && (same(flag, "--short") || same(flag, "--porcelain")
            || same(flag, "--porcelain=v1") || same(flag, "--porcelain=v2")) {
            return true;
        }
        return same(args[0].as_str(), "diff") && same(flag, "--stat");
    }
    if args.len() == 4 {
        assert(view[0] == args[0]@ && view[1] == args[1]@ && view[2] == args[2]@ && view[3]
            == args[3]@);
        if same(args[0].as_str(), "log") && same(args[1].as_str(), "--oneline") && same(
            args[2].as_str(),
            "-n",
        ) {
            return match parse_usize(args[3].as_str()) {
                Some(count) => 1 <= count && count <= 50,
                None => false,
            };
        }
    }
    false
}

} // verus!
