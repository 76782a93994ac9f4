//! What the commands of the program make of their options and findings.
#![verifier::loop_isolation(false)]

use crate::backends::grep::{GrepMatch, MatchView};
use crate::paths::names;
use crate::structured::{
    all_wf, applied, apply_options, clause_of, column_of, columns_check, grep_columns, grep_record,
    named_columns, parent_column, parse_select, parse_sort_by, path_columns, path_record, records_text,
    render_records, result_view, selection_of, slice_columns, slice_record, texts_of,
    validate_columns, ErrorView, FieldView, OptionsView, OutputFormat, Record,
    RecordOptions, StructuredError, WhereClause,
};
use vstd::prelude::*;

verus! {

/// How much is looked at where records are filtered or sorted afterwards.
pub const STRUCTURED_SCAN_LIMIT: usize = 5_000;

/// How records are to be shown.
#[derive(Debug, Clone, PartialEq, Eq)]
pub struct RecordArgs {
    pub output: OutputFormat,
    pub select: Option<String>,
    pub where_clause: Option<String>,
    pub sort_by: Option<String>,
}

/// The contents of how records are to be shown.
#[verifier::ext_equal]
pub ghost struct ArgsView {
    pub output: OutputFormat,
    pub select: Option<Seq<char>>,
    pub where_clause: Option<Seq<char>>,
    pub sort_by: Option<Seq<char>>,
}

impl DeepView for RecordArgs {
    type V = ArgsView;

    open spec fn deep_view(&self) -> ArgsView {
        ArgsView {
            output: self.output,
            select: self.select.deep_view(),
            where_clause: self.where_clause.deep_view(),
            sort_by: self.sort_by.deep_view(),
        }
    }
}

/// The options in words, each read on its own; the first that cannot be read
/// is the error.
pub open spec fn options_of(args: ArgsView, limit: Option<usize>) -> Result<
    OptionsView,
    ErrorView,
> {
    match (
        optional(args.select, |text: Seq<char>| selection_of(text)),
        optional(args.where_clause, |text: Seq<char>| clause_of(text)),
        optional(args.sort_by, |text: Seq<char>| column_of(text)),
    ) {
        (Err(error), _, _) => Err(error),
        (_, Err(error), _) => Err(error),
        (_, _, Err(error)) => Err(error),
        (Ok(select), Ok(where_clause), Ok(sort_by)) => Ok(
            OptionsView { select, where_clause, sort_by, limit },
        ),
    }
}

/// What is read in a text, where there is one.
pub open spec fn optional<T>(
    text: Option<Seq<char>>,
    read: spec_fn(Seq<char>) -> Result<T, ErrorView>,
) -> Result<Option<T>, ErrorView> {
    match text {
        Some(text) => match read(text) {
            Ok(value) => Ok(Some(value)),
            Err(error) => Err(error),
        },
        None => Ok(None),
    }
}

impl RecordArgs {
    /// Reads the options.
    pub fn to_options(&self, limit: Option<usize>) -> (r: Result<RecordOptions, StructuredError>)
        ensures
            result_view(r) == options_of(self.deep_view(), limit),
    {
        let select = match &self.select {
            Some(text) => match parse_select(text.as_str()) {
                Ok(columns) => Some(columns),
                Err(error) => {
                    return Err(error);
                },
            },
            None => None,
        };
        let where_clause = match &self.where_clause {
            Some(text) => match WhereClause::parse(text.as_str()) {
                Ok(clause) => Some(clause),
                Err(error) => {
                    return Err(error);
                },
            },
            None => None,
        };
        let sort_by = match &self.sort_by {
            Some(text) => match parse_sort_by(text.as_str()) {
                Ok(column) => Some(column),
                Err(error) => {
                    return Err(error);
                },
            },
            None => None,
        };
        Ok(RecordOptions { select, where_clause, sort_by, limit })
    }

    /// Whether records are filtered or sorted afterwards.
    pub fn needs_expanded_scan(&self) -> (r: bool)
        ensures
            r == (self.deep_view().where_clause is Some || self.deep_view().sort_by is Some),
    {
        self.where_clause.is_some() || self.sort_by.is_some()
    }
}

/// How much is looked at for so many records.
pub fn backend_limit(limit: usize, needs_expanded_scan: bool) -> (r: usize)
    ensures
        r == if needs_expanded_scan && limit < STRUCTURED_SCAN_LIMIT {
            STRUCTURED_SCAN_LIMIT
        } else {
            limit
        },
        r >= limit,
        needs_expanded_scan ==> r >= 5_000 && (r == limit || r == 5_000),
        !needs_expanded_scan ==> r == limit,
{
    if needs_expanded_scan && limit < STRUCTURED_SCAN_LIMIT {
        STRUCTURED_SCAN_LIMIT
    } else {
        limit
    }
}

/// What the records are about.
#[derive(Debug, Clone, Copy, PartialEq, Eq, Structural)]
pub enum Listing {
    Find,
    Grep,
    Slice,
}

impl Listing {
    /// The columns of the records.
    pub open spec fn columns(self) -> Seq<Seq<char>> {
        match self {
            Listing::Find => seq!["path"@, "name"@, "extension"@, "parent"@],
            Listing::Grep => seq![
                "path"@,
                "name"@,
                "extension"@,
                "parent"@,
                "line_number"@,
                "line"@,
            ],
            Listing::Slice => seq!["line_number"@, "text"@],
        }
    }

    /// The column that stands for a record in plain text.
    pub open spec fn main_column(self) -> Option<Seq<char>> {
        match self {
            Listing::Find => Some("path"@),
            Listing::Grep => None,
            Listing::Slice => Some("text"@),
        }
    }
}

fn check_columns(listing: Listing, options: &RecordOptions) -> (r: Result<(), StructuredError>)
    ensures
        match columns_check(named_columns(options.deep_view()), listing.columns()) {
            Ok(_) => r is Ok,
            Err(error) => r matches Err(found) && found.deep_view() == error,
        },
{
    match listing {
        Listing::Find => {
            let columns: [&str; 4] = ["path", "name", "extension", "parent"];
            assert(texts_of(columns@) =~= listing.columns());
            validate_columns(options, &columns)
        },
        Listing::Grep => {
            let columns: [&str; 6] = ["path", "name", "extension", "parent", "line_number", "line"];
            assert(texts_of(columns@) =~= listing.columns());
            validate_columns(options, &columns)
        },
        Listing::Slice => {
            let columns: [&str; 2] = ["line_number", "text"];
            assert(texts_of(columns@) =~= listing.columns());
            validate_columns(options, &columns)
        },
    }
}

/// The records as the options want them shown, or what is wrong with the
/// options.
pub open spec fn shown(
    records: Seq<Map<Seq<char>, FieldView>>,
    listing: Listing,
    args: ArgsView,
    limit: Option<usize>,
) -> Result<Seq<char>, ErrorView> {
    match options_of(args, limit) {
        Ok(options) => match columns_check(named_columns(options), listing.columns()) {
            Ok(_) => Ok(
                records_text(applied(records, options), args.output, listing.main_column()),
            ),
            Err(error) => Err(error),
        },
        Err(error) => Err(error),
    }
}

/// Shows the records as the options want them, or says what is wrong with the
/// options.
pub fn show_records(
    records: Vec<Record>,
    listing: Listing,
    args: &RecordArgs,
    limit: Option<usize>,
) -> (r: Result<String, StructuredError>)
    ensures
        result_view(r) == shown(records.deep_view(), listing, args.deep_view(), limit),
{
    let options = match args.to_options(limit) {
        Ok(options) => options,
        Err(error) => {
            return Err(error);
        },
    };
    if let Err(error) = check_columns(listing, &options) {
        return Err(error);
    }
    let records = apply_options(records, &options);
    let column = match listing {
        Listing::Find => Some("path"),
        Listing::Grep => None,
        Listing::Slice => Some("text"),
    };
    Ok(render_records(&records, args.output, column))
}

/// Whether a record is that of a path, with the parts that the host sees in
/// it.
pub open spec fn is_path_record(record: Map<Seq<char>, FieldView>, path: Seq<char>) -> bool {
    exists|name: Seq<char>, parent: Seq<char>|
        record == #[trigger] path_columns(path, name, parent) && names(path, name)
            && parent_column(path, parent)
}

/// The records of paths.
pub fn find_records(paths: &Vec<String>) -> (r: Vec<Record>)
    ensures
        all_wf(r@),
        r.len() == paths.len(),
        forall|i: int|
            0 <= i < r.len() ==> is_path_record(#[trigger] r.deep_view()[i], paths.deep_view()[i]),
{
    let mut records: Vec<Record> = Vec::new();
    let mut i: usize = 0;
    while i < paths.len()
        invariant
            i <= paths.len(),
            records.len() == i,
            all_wf(records@),
            forall|j: int|
                0 <= j < i ==> is_path_record(
                    (#[trigger] records@[j]).deep_view(),
                    paths.deep_view()[j],
                ),
        decreases paths.len() - i,
    {
        assert(paths.deep_view()[i as int] == paths[i as int]@);
        let record = path_record(paths[i].as_str());
        assert(is_path_record(record.deep_view(), paths@[i as int]@));
        records.push(record);
        i += 1;
    }
    records
}

/// Whether a record is that of a match, with the parts that the host sees in
/// its path.
pub open spec fn is_match_record(record: Map<Seq<char>, FieldView>, m: MatchView) -> bool {
    exists|name: Seq<char>, parent: Seq<char>|
        record == grep_columns(
            #[trigger] path_columns(m.path, name, parent),
            m.line_number as usize,
            m.line,
        ) && names(m.path, name) && parent_column(m.path, parent)
}

/// The records of matches.
pub fn grep_records(matches: &Vec<GrepMatch>) -> (r: Vec<Record>)
    ensures
        all_wf(r@),
        r.len() == matches.len(),
        forall|i: int|
            0 <= i < r.len() ==> is_match_record(
                #[trigger] r.deep_view()[i],
                matches.deep_view()[i],
            ),
{
    let mut records: Vec<Record> = Vec::new();
    let mut i: usize = 0;
    while i < matches.len()
        invariant
            i <= matches.len(),
            records.len() == i,
            all_wf(records@),
            forall|j: int|
                0 <= j < i ==> is_match_record(
                    (#[trigger] records@[j]).deep_view(),
                    matches.deep_view()[j],
                ),
        decreases matches.len() - i,
    {
        assert(matches.deep_view()[i as int] == matches[i as int].deep_view());
        let m = &matches[i];
        let record = grep_record(m.path.as_str(), m.line_number, m.line.as_str());
        proof {
            let view = m.deep_view();
            let (name, parent) = choose|name: Seq<char>, parent: Seq<char>|
                record.deep_view() == grep_columns(
                    #[trigger] path_columns(view.path, name, parent),
                    m.line_number,
                    view.line,
                ) && names(view.path, name) && parent_column(view.path, parent);
            assert(view.line_number as usize == m.line_number);
            assert(record.deep_view() == grep_columns(
                path_columns(view.path, name, parent),
                view.line_number as usize,
                view.line,
            ));
            assert(is_match_record(record.deep_view(), view));
        }
        records.push(record);
        i += 1;
    }
    records
}

/// The records of the lines after the first `skip`.
pub open spec fn line_columns(lines: Seq<Seq<char>>, skip: usize) -> Seq<Map<Seq<char>, FieldView>> {
    Seq::new(lines.len(), |i: int| slice_columns((skip + i + 1) as usize, lines[i]))
}

/// The records of the lines after the first `skip`, which are numbered from
/// the start of the file.
pub fn slice_records(lines: &Vec<String>, skip: usize) -> (r: Vec<Record>)
    requires
        skip + lines.len() <= usize::MAX,
    ensures
        all_wf(r@),
        r.deep_view() == line_columns(lines.deep_view(), skip),
{
    let ghost all = line_columns(lines.deep_view(), skip);
    let mut records: Vec<Record> = Vec::new();
    let mut i: usize = 0;
    assert(records.deep_view() =~= all.take(0));
    while i < lines.len()
        invariant
            i <= lines.len(),
            all_wf(records@),
            records.deep_view() == all.take(i as int),
        decreases lines.len() - i,
    {
        assert(lines.deep_view()[i as int] == lines[i as int]@);
        let ghost before = records.deep_view();
        records.push(slice_record(skip + i + 1, lines[i].as_str()));
        assert(records.deep_view() =~= before.push(all[i as int]));
        i += 1;
        assert(records.deep_view() =~= all.take(i as int));
    }
    assert(all.take(i as int) =~= all);
    records
}

} // verus!
