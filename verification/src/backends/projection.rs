//! Filtering, sorting and projecting lists of files.
#![verifier::loop_isolation(false)]

use super::everything::{FindQuery, FindQueryView};
use crate::bytes::{decoded, from_utf8};
use crate::case::{ascii_lowercase, eq_ignore_ascii_case, same_ignoring_case, to_ascii_lowercase};
use crate::error::BackendError;
use crate::number::{decimal, decimal_text, parse_usize, push_decimal, read_unsigned};
use crate::paths::{extension, extension_in, name_of, names};
use crate::patterns::{wildcard_match, wildcard_matches};
use crate::shell_parse::filters::allowlisted;
use crate::sorting::{key_of_text, order_of, positions, sort_positions, text_key};
use crate::split::{join, joined};
use crate::text::{owned, push_item, same};
use vstd::prelude::*;
use vstd::string::*;

verus! {

/// A column of a listing.
#[derive(Debug, Clone, Copy, PartialEq, Eq, Structural)]
pub enum MetadataField {
    FullName,
    Name,
    Length,
    LastWriteTime,
    Mode,
}

impl DeepView for MetadataField {
    type V = MetadataField;

    open spec fn deep_view(&self) -> MetadataField {
        *self
    }
}

/// What is shown of each file.
#[derive(Debug, Clone, PartialEq, Eq)]
pub enum Projection {
    FullNameOnly,
    Metadata { fields: Vec<MetadataField> },
}

/// The contents of a projection.
#[verifier::ext_equal]
pub ghost enum ProjectionView {
    FullNameOnly,
    Metadata { fields: Seq<MetadataField> },
}

impl DeepView for Projection {
    type V = ProjectionView;

    open spec fn deep_view(&self) -> ProjectionView {
        match self {
            Projection::FullNameOnly => ProjectionView::FullNameOnly,
            Projection::Metadata { fields } => ProjectionView::Metadata {
                fields: fields.deep_view(),
            },
        }
    }
}

/// A search whose results are projected.
#[derive(Debug, Clone, PartialEq, Eq)]
pub struct FindProjection {
    pub query: FindQuery,
    pub projection: Projection,
}

/// The contents of a projected search.
#[verifier::ext_equal]
pub ghost struct FindProjectionView {
    pub query: FindQueryView,
    pub projection: ProjectionView,
}

impl DeepView for FindProjection {
    type V = FindProjectionView;

    open spec fn deep_view(&self) -> FindProjectionView {
        FindProjectionView {
            query: self.query.deep_view(),
            projection: self.projection.deep_view(),
        }
    }
}

/// A property of a file that a pipeline filters or sorts by.
#[derive(Debug, Clone, Copy, PartialEq, Eq, Structural)]
pub enum FileField {
    FullName,
    Name,
    Extension,
    Length,
    LastWriteTime,
}

/// How a pipeline sorts.
#[derive(Debug, Clone, Copy, PartialEq, Eq, Structural)]
pub struct FileSort {
    pub field: FileField,
    pub descending: bool,
}

impl DeepView for FileSort {
    type V = FileSort;

    open spec fn deep_view(&self) -> FileSort {
        *self
    }
}

/// Which files a pipeline keeps.
#[derive(Debug, Clone, PartialEq, Eq)]
pub enum FileWhere {
    Like { field: FileField, pattern: String },
    Equals { field: FileField, value: String },
}

/// The contents of a filter.
#[verifier::ext_equal]
pub ghost enum FileWhereView {
    Like { field: FileField, pattern: Seq<char> },
    Equals { field: FileField, value: Seq<char> },
}

impl DeepView for FileWhere {
    type V = FileWhereView;

    open spec fn deep_view(&self) -> FileWhereView {
        match self {
            FileWhere::Like { field, pattern } => FileWhereView::Like {
                field: *field,
                pattern: pattern@,
            },
            FileWhere::Equals { field, value } => FileWhereView::Equals {
                field: *field,
                value: value@,
            },
        }
    }
}

/// A search whose results are filtered, sorted, limited and projected.
#[derive(Debug, Clone, PartialEq, Eq)]
pub struct FindPipeline {
    pub query: FindQuery,
    pub where_filter: Option<FileWhere>,
    pub sort: Option<FileSort>,
    pub projection: Projection,
    pub limit: Option<usize>,
}

/// The contents of a pipeline.
#[verifier::ext_equal]
pub ghost struct FindPipelineView {
    pub query: FindQueryView,
    pub where_filter: Option<FileWhereView>,
    pub sort: Option<FileSort>,
    pub projection: ProjectionView,
    pub limit: Option<usize>,
}

impl DeepView for FindPipeline {
    type V = FindPipelineView;

    open spec fn deep_view(&self) -> FindPipelineView {
        FindPipelineView {
            query: self.query.deep_view(),
            where_filter: self.where_filter.deep_view(),
            sort: self.sort,
            projection: self.projection.deep_view(),
            limit: self.limit,
        }
    }
}

/// What is measured of the results of a search.
#[derive(Debug, Clone, Copy, PartialEq, Eq, Structural)]
pub enum MeasureKind {
    Count,
    Length,
}

/// A search whose results are filtered and measured.
#[derive(Debug, Clone, PartialEq, Eq)]
pub struct FindMeasure {
    pub query: FindQuery,
    pub where_filter: Option<FileWhere>,
    pub measure: MeasureKind,
}

/// The contents of a measured search.
#[verifier::ext_equal]
pub ghost struct FindMeasureView {
    pub query: FindQueryView,
    pub where_filter: Option<FileWhereView>,
    pub measure: MeasureKind,
}

impl DeepView for FindMeasure {
    type V = FindMeasureView;

    open spec fn deep_view(&self) -> FindMeasureView {
        FindMeasureView {
            query: self.query.deep_view(),
            where_filter: self.where_filter.deep_view(),
            measure: self.measure,
        }
    }
}

/// A program to run, with its arguments.
#[derive(Debug, Clone, PartialEq, Eq)]
pub struct ReadOnlyExternal {
    pub program: String,
    pub args: Vec<String>,
}

/// The contents of a program call.
#[verifier::ext_equal]
pub ghost struct ReadOnlyExternalView {
    pub program: Seq<char>,
    pub args: Seq<Seq<char>>,
}

impl DeepView for ReadOnlyExternal {
    type V = ReadOnlyExternalView;

    open spec fn deep_view(&self) -> ReadOnlyExternalView {
        ReadOnlyExternalView { program: self.program@, args: self.args.deep_view() }
    }
}

// Files.

/// What the file system says of a file.
#[derive(Debug, Clone, Copy, PartialEq, Eq, Structural)]
pub struct FileMetadata {
    pub length: u64,
    /// Seconds since the start of 1970.
    pub modified: Option<u64>,
    pub is_dir: bool,
}

/// What is known of a file.
#[derive(Debug, Clone, PartialEq, Eq)]
pub struct FileFacts {
    pub path: String,
    pub name: String,
    pub metadata: Option<FileMetadata>,
}

/// The contents of what is known of a file.
#[verifier::ext_equal]
pub ghost struct FactsView {
    pub path: Seq<char>,
    pub name: Seq<char>,
    pub metadata: Option<FileMetadata>,
}

impl DeepView for FileFacts {
    type V = FactsView;

    open spec fn deep_view(&self) -> FactsView {
        FactsView { path: self.path@, name: self.name@, metadata: self.metadata }
    }
}

impl FileFacts {
    /// What is known of the file at `path`, given its metadata where it has
    /// them. Its name is what the host sees in the path.
    pub fn new(path: &str, metadata: Option<FileMetadata>) -> (r: FileFacts)
        ensures
            r.deep_view().path == path@,
            r.deep_view().metadata == metadata,
            names(path@, r.deep_view().name),
    {
        FileFacts { path: owned(path), name: name_of(path), metadata }
    }

    /// A copy.
    pub fn copy(&self) -> (r: FileFacts)
        ensures
            r.deep_view() == self.deep_view(),
    {
        FileFacts {
            path: self.path.clone(),
            name: self.name.clone(),
            metadata: self.metadata,
        }
    }
}

/// A path as the file system takes it.
pub fn normalize_path_for_metadata(path: &str) -> (r: String)
    ensures
        r@ == path@,
{
    owned(path)
}

// Rendering.

/// At most so many files are shown.
pub const MAX_PROJECTED: usize = 200;

/// A number, or nothing where there is none.
pub open spec fn number_or_nothing(n: Option<u64>) -> Seq<char> {
    match n {
        Some(n) => decimal(n as nat),
        None => Seq::empty(),
    }
}

/// The length of a file, where it is known.
pub open spec fn length_of(facts: FactsView) -> Option<u64> {
    match facts.metadata {
        Some(metadata) => Some(metadata.length),
        None => None,
    }
}

/// When a file was written, where it is known.
pub open spec fn modified_of(facts: FactsView) -> Option<u64> {
    match facts.metadata {
        Some(metadata) => metadata.modified,
        None => None,
    }
}

/// One column of a file.
pub open spec fn column_text(facts: FactsView, field: MetadataField) -> Seq<char> {
    match field {
        MetadataField::FullName => "FullName="@ + facts.path,
        MetadataField::Name => "Name="@ + facts.name,
        MetadataField::Length => "Length="@ + number_or_nothing(length_of(facts)),
        MetadataField::LastWriteTime => "LastWriteTime="@ + number_or_nothing(modified_of(facts)),
        MetadataField::Mode => "Mode="@ + if facts.metadata matches Some(metadata)
            && metadata.is_dir {
            "d"@
        } else {
            "-"@
        },
    }
}

/// The columns of a file on one line.
pub open spec fn metadata_line(facts: FactsView, fields: Seq<MetadataField>) -> Seq<char> {
    joined(fields.map_values(|field: MetadataField| column_text(facts, field)), " "@)
}

/// The line of a file.
pub open spec fn projected_line(facts: FactsView, projection: ProjectionView) -> Seq<char> {
    match projection {
        ProjectionView::FullNameOnly => facts.path,
        ProjectionView::Metadata { fields } => metadata_line(facts, fields),
    }
}

/// The lines of the first files, and how many are left out.
pub open spec fn projected_lines(files: Seq<FactsView>, projection: ProjectionView) -> Seq<
    Seq<char>,
> {
    let shown = if files.len() > MAX_PROJECTED {
        files.take(MAX_PROJECTED as int)
    } else {
        files
    };
    let lines = shown.map_values(|facts: FactsView| projected_line(facts, projection));
    if files.len() > MAX_PROJECTED {
        lines.push("omitted_count="@ + decimal((files.len() - MAX_PROJECTED) as nat))
    } else {
        lines
    }
}

fn append_number(out: &mut String, n: Option<u64>)
    ensures
        final(out)@ == old(out)@ + number_or_nothing(n),
{
    let ghost before = out@;
    if let Some(n) = n {
        push_decimal(out, n as u128);
    } else {
        assert(before + Seq::<char>::empty() =~= before);
    }
}

fn render_column(facts: &FileFacts, field: MetadataField) -> (r: String)
    ensures
        r@ == column_text(facts.deep_view(), field),
{
    match field {
        MetadataField::FullName => {
            let mut out = owned("FullName=");
            out.append(facts.path.as_str());
            out
        },
        MetadataField::Name => {
            let mut out = owned("Name=");
            out.append(facts.name.as_str());
            out
        },
        MetadataField::Length => {
            let mut out = owned("Length=");
            let length: Option<u64> = match facts.metadata {
                Some(metadata) => Some(metadata.length),
                None => None,
            };
            append_number(&mut out, length);
            out
        },
        MetadataField::LastWriteTime => {
            let mut out = owned("LastWriteTime=");
            let modified: Option<u64> = match facts.metadata {
                Some(metadata) => metadata.modified,
                None => None,
            };
            append_number(&mut out, modified);
            out
        },
        MetadataField::Mode => {
            let mut out = owned("Mode=");
            let is_dir = match facts.metadata {
                Some(metadata) => metadata.is_dir,
                None => false,
            };
            if is_dir {
                out.append("d");
            } else {
                out.append("-");
            }
            out
        },
    }
}

/// The columns of a file on one line.
pub fn render_metadata_line(facts: &FileFacts, fields: &Vec<MetadataField>) -> (r: String)
    ensures
        r@ == metadata_line(facts.deep_view(), fields.deep_view()),
{
    let ghost all = fields.deep_view().map_values(
        |field: MetadataField| column_text(facts.deep_view(), field),
    );
    let mut columns: Vec<String> = Vec::new();
    let mut i: usize = 0;
    assert(columns.deep_view() =~= all.take(0));
    while i < fields.len()
        invariant
            i <= fields.len(),
            columns.deep_view() == all.take(i as int),
        decreases fields.len() - i,
    {
        assert(fields.deep_view()[i as int] == fields[i as int]);
        push_item(&mut columns, render_column(facts, fields[i]));
        i += 1;
        assert(columns.deep_view() =~= all.take(i as int));
    }
    assert(all.take(i as int) =~= all);
    join(&columns, " ")
}

/// The lines of the files as one text.
pub fn render_projection(files: &Vec<FileFacts>, projection: &Projection) -> (r: String)
    ensures
        r@ == joined(projected_lines(files.deep_view(), projection.deep_view()), "\n"@),
{
    let ghost view = files.deep_view();
    let ghost p = projection.deep_view();
    let shown: usize = if files.len() > MAX_PROJECTED {
        MAX_PROJECTED
    } else {
        files.len()
    };
    let ghost all = view.take(shown as int).map_values(|facts: FactsView| projected_line(facts, p));
    let mut lines: Vec<String> = Vec::new();
    let mut i: usize = 0;
    assert(lines.deep_view() =~= all.take(0));
    while i < shown
        invariant
            i <= shown <= files.len(),
            lines.deep_view() == all.take(i as int),
        decreases shown - i,
    {
        assert(view[i as int] == files[i as int].deep_view());
        let line = match projection {
            Projection::FullNameOnly => files[i].path.clone(),
            Projection::Metadata { fields } => render_metadata_line(&files[i], fields),
        };
        push_item(&mut lines, line);
        i += 1;
        assert(lines.deep_view() =~= all.take(i as int));
    }
    assert(all.take(i as int) =~= all);
    if files.len() > MAX_PROJECTED {
        let mut line = owned("omitted_count=");
        push_decimal(&mut line, (files.len() - MAX_PROJECTED) as u128);
        push_item(&mut lines, line);
    } else {
        assert(view.take(shown as int) =~= view);
    }
    assert(lines.deep_view() =~= projected_lines(view, p));
    join(&lines, "\n")
}

// Filtering and sorting.

/// The extension of a file with its dot, or nothing.
pub open spec fn dotted_extension(name: Seq<char>) -> Seq<char> {
    match extension_in(name) {
        Some(extension) => seq!['.'] + extension,
        None => Seq::empty(),
    }
}

/// The extension of a file with its dot, or nothing.
pub fn extension_with_dot(name: &str) -> (r: String)
    ensures
        r@ == dotted_extension(name@),
{
    match extension(name) {
        Some(extension) => {
            let mut out = String::new();
            out.push('.');
            out.append(extension.as_str());
            assert(out@ =~= seq!['.'] + extension@);
            out
        },
        None => String::new(),
    }
}

/// A property of a file as text.
pub open spec fn field_text(facts: FactsView, field: FileField) -> Seq<char> {
    match field {
        FileField::FullName => facts.path,
        FileField::Name => facts.name,
        FileField::Extension => dotted_extension(facts.name),
        FileField::Length => number_or_nothing(length_of(facts)),
        FileField::LastWriteTime => number_or_nothing(modified_of(facts)),
    }
}

fn text_of_field(facts: &FileFacts, field: FileField) -> (r: String)
    ensures
        r@ == field_text(facts.deep_view(), field),
{
    match field {
        FileField::FullName => facts.path.clone(),
        FileField::Name => facts.name.clone(),
        FileField::Extension => extension_with_dot(facts.name.as_str()),
        FileField::Length => match facts.metadata {
            Some(metadata) => decimal_text(metadata.length as u128),
            None => String::new(),
        },
        FileField::LastWriteTime => match facts.metadata {
            Some(metadata) => match metadata.modified {
                Some(modified) => decimal_text(modified as u128),
                None => String::new(),
            },
            None => String::new(),
        },
    }
}

/// Whether a filter keeps a file: its property matches a wildcard, or equals
/// a value up to case.
pub open spec fn keeps(filter: FileWhereView, facts: FactsView) -> bool {
    match filter {
        FileWhereView::Like { field, pattern } => wildcard_matches(
            field_text(facts, field),
            pattern,
        ),
        FileWhereView::Equals { field, value } => same_ignoring_case(
            field_text(facts, field),
            value,
        ),
    }
}

/// Whether a filter, where there is one, keeps a file.
pub open spec fn kept_by(filter: Option<FileWhereView>, facts: FactsView) -> bool {
    filter matches Some(filter) ==> keeps(filter, facts)
}

/// Whether a filter keeps a file.
pub fn file_matches(filter: &FileWhere, facts: &FileFacts) -> (r: bool)
    ensures
        r == keeps(filter.deep_view(), facts.deep_view()),
{
    match filter {
        FileWhere::Like { field, pattern } => {
            let text = text_of_field(facts, *field);
            wildcard_match(text.as_str(), pattern.as_str())
        },
        FileWhere::Equals { field, value } => {
            let text = text_of_field(facts, *field);
            eq_ignore_ascii_case(text.as_str(), value.as_str())
        },
    }
}

/// The files that a filter keeps.
pub open spec fn filtered(filter: Option<FileWhereView>, files: Seq<FactsView>) -> Seq<FactsView>
    decreases files.len(),
{
    if files.len() == 0 {
        Seq::empty()
    } else {
        let before = filtered(filter, files.drop_last());
        if kept_by(filter, files.last()) {
            before.push(files.last())
        } else {
            before
        }
    }
}

/// The files that a filter keeps.
pub fn filter_files(filter: &Option<FileWhere>, files: &Vec<FileFacts>) -> (r: Vec<FileFacts>)
    ensures
        r.deep_view() == filtered(filter.deep_view(), files.deep_view()),
{
    let ghost view = files.deep_view();
    let mut out: Vec<FileFacts> = Vec::new();
    let mut i: usize = 0;
    assert(out.deep_view() =~= Seq::<FactsView>::empty());
    while i < files.len()
        invariant
            i <= files.len(),
            out.deep_view() == filtered(filter.deep_view(), view.take(i as int)),
        decreases files.len() - i,
    {
        proof {
            assert(view.take(i + 1).drop_last() =~= view.take(i as int));
            assert(view.take(i + 1).last() == files[i as int].deep_view());
        }
        let keep = match filter {
            Some(filter) => file_matches(filter, &files[i]),
            None => true,
        };
        if keep {
            push_item(&mut out, files[i].copy());
        }
        i += 1;
    }
    assert(view.take(i as int) =~= view);
    out
}

/// The key of a number that may be missing: missing numbers come first.
pub open spec fn number_key(n: Option<u64>) -> Seq<u64> {
    match n {
        Some(n) => seq![1u64, n],
        None => seq![0u64],
    }
}

/// What files are sorted by: numbers by size, texts up to case.
pub open spec fn sort_key(facts: FactsView, field: FileField) -> Seq<u64> {
    match field {
        FileField::Length => number_key(length_of(facts)),
        FileField::LastWriteTime => number_key(modified_of(facts)),
        _ => text_key(ascii_lowercase(field_text(facts, field))),
    }
}

/// What all files are sorted by.
pub open spec fn sort_keys(files: Seq<FactsView>, field: FileField) -> Seq<Seq<u64>> {
    files.map_values(|facts: FactsView| sort_key(facts, field))
}

/// The files in the order of a property.
pub open spec fn sorted_files(files: Seq<FactsView>, sort: FileSort) -> Seq<FactsView> {
    order_of(sort_keys(files, sort.field), sort.descending).map_values(|i: int| files[i])
}

fn key_for_number(n: Option<u64>) -> (r: Vec<u64>)
    ensures
        r@ == number_key(n),
{
    let mut key: Vec<u64> = Vec::new();
    match n {
        Some(n) => {
            key.push(1);
            key.push(n);
        },
        None => {
            key.push(0);
        },
    }
    assert(key@ =~= number_key(n));
    key
}

fn key_for(facts: &FileFacts, field: FileField) -> (r: Vec<u64>)
    ensures
        r@ == sort_key(facts.deep_view(), field),
{
    match field {
        FileField::Length => {
            let length: Option<u64> = match facts.metadata {
                Some(metadata) => Some(metadata.length),
                None => None,
            };
            key_for_number(length)
        },
        FileField::LastWriteTime => {
            let modified: Option<u64> = match facts.metadata {
                Some(metadata) => metadata.modified,
                None => None,
            };
            key_for_number(modified)
        },
        _ => {
            let text = text_of_field(facts, field);
            key_of_text(to_ascii_lowercase(text.as_str()).as_str())
        },
    }
}

/// The files in the order of a property.
pub fn sort_files(files: &Vec<FileFacts>, sort: FileSort) -> (r: Vec<FileFacts>)
    ensures
        r.deep_view() == sorted_files(files.deep_view(), sort),
{
    let ghost view = files.deep_view();
    let ghost all_keys = sort_keys(view, sort.field);
    let mut keys: Vec<Vec<u64>> = Vec::new();
    let mut i: usize = 0;
    while i < files.len()
        invariant
            i <= files.len(),
            keys.len() == i,
            forall|j: int| 0 <= j < i ==> #[trigger] keys@[j]@ == all_keys[j],
        decreases files.len() - i,
    {
        assert(view[i as int] == files[i as int].deep_view());
        keys.push(key_for(&files[i], sort.field));
        i += 1;
    }
    assert(keys.deep_view() =~= all_keys) by {
        assert forall|j: int| 0 <= j < all_keys.len() implies keys.deep_view()[j] == all_keys[j] by {
            assert(keys.deep_view()[j] =~= keys@[j]@);
        }
    }
    let order = sort_positions(&keys, sort.descending);
    let ghost all = sorted_files(view, sort);
    let mut out: Vec<FileFacts> = Vec::new();
    let mut i: usize = 0;
    assert(out.deep_view() =~= all.take(0));
    assert(positions(order@).len() == order@.len());
    while i < order.len()
        invariant
            i <= order.len(),
            out.deep_view() == all.take(i as int),
        decreases order.len() - i,
    {
        let at = order[i];
        assert(positions(order@)[i as int] == at as int);
        assert(at < files.len());
        assert(view[at as int] == files[at as int].deep_view());
        push_item(&mut out, files[at].copy());
        i += 1;
        assert(out.deep_view() =~= all.take(i as int));
    }
    assert(all.take(i as int) =~= all);
    out
}

/// The files that a pipeline shows: filtered, sorted and limited, in this
/// order.
pub open spec fn pipeline_files(files: Seq<FactsView>, pipeline: FindPipelineView) -> Seq<
    FactsView,
> {
    let kept = filtered(pipeline.where_filter, files);
    let ordered = match pipeline.sort {
        Some(sort) => sorted_files(kept, sort),
        None => kept,
    };
    match pipeline.limit {
        Some(limit) => if ordered.len() > limit {
            ordered.take(limit as int)
        } else {
            ordered
        },
        None => ordered,
    }
}

/// The files that a pipeline shows.
pub fn apply_find_pipeline(files: &Vec<FileFacts>, pipeline: &FindPipeline) -> (r: Vec<FileFacts>)
    ensures
        r.deep_view() == pipeline_files(files.deep_view(), pipeline.deep_view()),
{
    let mut files = filter_files(&pipeline.where_filter, files);
    if let Some(sort) = pipeline.sort {
        files = sort_files(&files, sort);
    }
    if let Some(limit) = pipeline.limit {
        if files.len() > limit {
            let ghost all = files.deep_view();
            files.truncate(limit);
            assert(files.deep_view() =~= all.take(limit as int));
        }
    }
    files
}

// Measuring.

/// The lengths of the files that have one.
pub open spec fn known_lengths(files: Seq<FactsView>) -> Seq<u64>
    decreases files.len(),
{
    if files.len() == 0 {
        Seq::empty()
    } else {
        let before = known_lengths(files.drop_last());
        match length_of(files.last()) {
            Some(length) => before.push(length),
            None => before,
        }
    }
}

/// The sum of the lengths.
pub open spec fn total(lengths: Seq<u64>) -> nat
    decreases lengths.len(),
{
    if lengths.len() == 0 {
        0
    } else {
        total(lengths.drop_last()) + lengths.last() as nat
    }
}

/// The smallest length, or none.
pub open spec fn smallest(lengths: Seq<u64>) -> Option<u64>
    decreases lengths.len(),
{
    if lengths.len() == 0 {
        None
    } else {
        match smallest(lengths.drop_last()) {
            Some(least) => if lengths.last() < least {
                Some(lengths.last())
            } else {
                Some(least)
            },
            None => Some(lengths.last()),
        }
    }
}

/// The largest length, or none.
pub open spec fn largest(lengths: Seq<u64>) -> Option<u64>
    decreases lengths.len(),
{
    if lengths.len() == 0 {
        None
    } else {
        match largest(lengths.drop_last()) {
            Some(most) => if lengths.last() > most {
                Some(lengths.last())
            } else {
                Some(most)
            },
            None => Some(lengths.last()),
        }
    }
}

/// What is measured of the files that a filter keeps: how many there are
/// and, where lengths are measured, their sum and their bounds.
pub open spec fn measured(files: Seq<FactsView>, measure: FindMeasureView) -> Seq<char> {
    let kept = filtered(measure.where_filter, files);
    match measure.measure {
        MeasureKind::Count => "Count="@ + decimal(kept.len()),
        MeasureKind::Length => {
            let lengths = known_lengths(kept);
            "Count="@ + decimal(lengths.len()) + " Sum="@ + decimal(total(lengths)) + " Minimum="@
                + number_or_nothing(smallest(lengths)) + " Maximum="@ + number_or_nothing(
                largest(lengths),
            )
        },
    }
}

/// What is measured of the files that a filter keeps.
pub fn render_find_measure(files: &Vec<FileFacts>, measure: &FindMeasure) -> (r: String)
    ensures
        r@ == measured(files.deep_view(), measure.deep_view()),
{
    let kept = filter_files(&measure.where_filter, files);
    let ghost view = kept.deep_view();
    match measure.measure {
        MeasureKind::Count => {
            let mut out = owned("Count=");
            push_decimal(&mut out, kept.len() as u128);
            out
        },
        MeasureKind::Length => {
            let mut count: usize = 0;
            let mut sum: u128 = 0;
            let mut least: Option<u64> = None;
            let mut most: Option<u64> = None;
            let mut i: usize = 0;
            while i < kept.len()
                invariant
                    i <= kept.len(),
                    count <= i,
                    count == known_lengths(view.take(i as int)).len(),
                    sum == total(known_lengths(view.take(i as int))),
                    sum <= i * 0xffff_ffff_ffff_ffff,
                    least == smallest(known_lengths(view.take(i as int))),
                    most == largest(known_lengths(view.take(i as int))),
                decreases kept.len() - i,
            {
                let ghost before = known_lengths(view.take(i as int));
                proof {
                    assert(view.take(i + 1).drop_last() =~= view.take(i as int));
                    assert(view.take(i + 1).last() == kept[i as int].deep_view());
                    assert(i * 0xffff_ffff_ffff_ffff + 0xffff_ffff_ffff_ffff == (i + 1)
                        * 0xffff_ffff_ffff_ffff) by (nonlinear_arith);
                    assert((i + 1) * 0xffff_ffff_ffff_ffff
                        <= 0xffff_ffff_ffff_ffff_ffff_ffff_ffff_ffff) by (nonlinear_arith)
                        requires
                            i < 0xffff_ffff_ffff_ffff,
                    ;
                }
                if let Some(metadata) = kept[i].metadata {
                    let length = metadata.length;
                    proof {
                        assert(before.push(length).drop_last() =~= before);
                    }
                    count += 1;
                    sum = sum + length as u128;
                    least = match least {
                        Some(n) => if length < n {
                            Some(length)
                        } else {
                            Some(n)
                        },
                        None => Some(length),
                    };
                    most = match most {
                        Some(n) => if length > n {
                            Some(length)
                        } else {
                            Some(n)
                        },
                        None => Some(length),
                    };
                }
                i += 1;
            }
            assert(view.take(i as int) =~= view);
            let mut out = owned("Count=");
            push_decimal(&mut out, count as u128);
            out.append(" Sum=");
            push_decimal(&mut out, sum);
            out.append(" Minimum=");
            append_number(&mut out, least);
            out.append(" Maximum=");
            append_number(&mut out, most);
            out
        },
    }
}

// Programs.

/// Why a program call is refused, or its output not used.
#[derive(Debug, Clone, PartialEq, Eq)]
pub enum ExternalError {
    /// The program is not git.
    Program,
    /// The arguments are not among those allowed.
    Command,
    /// The count of log entries is not a number.
    Count,
    /// The count of log entries is too small or too large.
    CountRange,
    /// The program failed; the status is in words.
    Status { status: String },
    /// The program wrote to its error output.
    Stderr,
    /// The program wrote too much.
    TooLong,
    /// What the program wrote is not UTF-8.
    NotUtf8 { message: String },
}

impl ExternalError {
    /// The failure in words.
    pub open spec fn words(self) -> Seq<char> {
        match self {
            ExternalError::Program => "external program is not allowlisted"@,
            ExternalError::Command => "external command is not allowlisted"@,
            ExternalError::Count => "git log count is not a number"@,
            ExternalError::CountRange => "git log count is outside 1..=50"@,
            ExternalError::Status { status } => "external command exited with "@ + status@,
            ExternalError::Stderr => "external command wrote stderr"@,
            ExternalError::TooLong => "external command stdout exceeded 64KiB"@,
            ExternalError::NotUtf8 { message } => message@,
        }
    }

    /// The failure in words.
    pub fn to_error(&self) -> (r: BackendError)
        ensures
            r.deep_view() == self.words(),
    {
        match self {
            ExternalError::Program => BackendError::new("external program is not allowlisted"),
            ExternalError::Command => BackendError::new("external command is not allowlisted"),
            ExternalError::Count => BackendError::new("git log count is not a number"),
            ExternalError::CountRange => BackendError::new("git log count is outside 1..=50"),
            ExternalError::Status { status } => {
                let mut message = owned("external command exited with ");
                message.append(status.as_str());
                BackendError { message }
            },
            ExternalError::Stderr => BackendError::new("external command wrote stderr"),
            ExternalError::TooLong => BackendError::new("external command stdout exceeded 64KiB"),
            ExternalError::NotUtf8 { message } => BackendError { message: message.clone() },
        }
    }
}

/// Whether the arguments ask for log entries.
pub open spec fn asks_for_log(args: Seq<Seq<char>>) -> bool {
    args.len() == 4 && args[0] == "log"@ && args[1] == "--oneline"@ && args[2] == "-n"@
}

/// Lets a program call pass only if it is one of the few that are allowed;
/// else says what is wrong with it.
pub fn validate_read_only_external(external: &ReadOnlyExternal) -> (r: Result<(), ExternalError>)
    ensures
        r is Ok <==> allowlisted(external.deep_view()),
        r matches Err(error) ==> {
            let view = external.deep_view();
            error == if view.program != "git"@ {
                ExternalError::Program
            } else if asks_for_log(view.args) {
                if read_unsigned(view.args[3]) is None {
                    ExternalError::Count
                } else {
                    ExternalError::CountRange
                }
            } else {
                ExternalError::Command
            }
        },
{
    if !same(external.program.as_str(), "git") {
        return Err(ExternalError::Program);
    }
    let args = &external.args;
    let ghost view = args.deep_view();
    if args.len() == 4 {
        assert(view[0] == args[0]@ && view[1] == args[1]@ && view[2] == args[2]@ && view[3]
            == args[3]@);
        if same(args[0].as_str(), "log") && same(args[1].as_str(), "--oneline") && same(
            args[2].as_str(),
            "-n",
        ) {
            return match parse_usize(args[3].as_str()) {
                Some(count) => {
                    if 1 <= count && count <= 50 {
                        Ok(())
                    } else {
                        Err(ExternalError::CountRange)
                    }
                },
                None => Err(ExternalError::Count),
            };
        }
    }
    if args.len() == 2 {
        assert(view[0] == args[0]@ && view[1] == args[1]@);
        let flag = args[1].as_str();
        if same(args[0].as_str(), "status") && (same(flag, "--short") || same(flag, "--porcelain")
            || same(flag, "--porcelain=v1") || same(flag, "--porcelain=v2")) {
            return Ok(());
        }
        if same(args[0].as_str(), "diff") && same(flag, "--stat") {
            return Ok(());
        }
    }
    Err(ExternalError::Command)
}

/// At most so much output of a program is used.
pub const MAX_EXTERNAL_OUTPUT: usize = 65_536;

/// What is used of a finished program: its output, if it succeeded, wrote
/// nothing to its error output, and wrote no more than is used and only
/// text.
pub fn external_output(success: bool, status: &str, stdout: Vec<u8>, stderr: &Vec<u8>) -> (r: Result<
    String,
    ExternalError,
>)
    ensures
        if !success {
            r matches Err(ExternalError::Status { status: s }) && s@ == status@
        } else if stderr@.len() > 0 {
            r matches Err(ExternalError::Stderr)
        } else if stdout@.len() > MAX_EXTERNAL_OUTPUT {
            r matches Err(ExternalError::TooLong)
        } else {
            match decoded(stdout@) {
                Some(text) => r matches Ok(output) && output@ == text,
                None => r matches Err(ExternalError::NotUtf8 { .. }),
            }
        },
        r matches Ok(output) ==> success && stderr@.len() == 0 && stdout@.len() <= 65_536
            && decoded(stdout@) == Some(output@),
        success && stderr@.len() == 0 && stdout@.len() <= 65_536 && decoded(stdout@) is Some ==> r
            is Ok,
{
    if !success {
        return Err(ExternalError::Status { status: owned(status) });
    }
    if stderr.len() > 0 {
        return Err(ExternalError::Stderr);
    }
    if stdout.len() > MAX_EXTERNAL_OUTPUT {
        return Err(ExternalError::TooLong);
    }
    match from_utf8(stdout) {
        Ok(text) => Ok(text),
        Err(message) => Err(ExternalError::NotUtf8 { message }),
    }
}

} // verus!
